use calcr::ast::{Ast, AstVal, ConstKind, FuncKind, OpKind};
use calcr::errors::ErrorKind;
use calcr::lexer::lex_equation;
use calcr::parser::{get_builtin_name, parse_tokens};
use calcr::token::{TokVal, Token};

fn parse_text(text: &str) -> Result<Ast, calcr::errors::CalcrError> {
    parse_tokens(lex_equation(&text.to_string()).unwrap())
}

fn leaf(val: AstVal, span: (usize, usize)) -> Ast {
    Ast { val, span, branches: vec![] }
}

fn number(text: &str, span: (usize, usize)) -> Ast {
    leaf(AstVal::Num(text.to_string()), span)
}

fn node(val: AstVal, span: (usize, usize), branches: Vec<Ast>) -> Ast {
    Ast { val, span, branches }
}

/// The tree in a compact notation, to compare shapes without spans.
fn shape(ast: &Ast) -> String {
    let head = match &ast.val {
        AstVal::Func(f) => format!("{:?}", f),
        AstVal::Op(o) => format!("{:?}", o),
        AstVal::Const(c) => format!("{:?}", c),
        AstVal::Num(n) => n.clone(),
        AstVal::LastResult => "ans".to_string(),
        AstVal::Name(n) => n.clone(),
    };
    if ast.branches.is_empty() {
        head
    } else {
        let parts: Vec<String> = ast.branches.iter().map(shape).collect();
        format!("{}({})", head, parts.join(","))
    }
}

fn shape_of(text: &str) -> String {
    shape(&parse_text(text).unwrap())
}

fn error_of(text: &str) -> (ErrorKind, Option<(usize, usize)>) {
    let e = parse_text(text).unwrap_err();
    (e.kind, e.span)
}

#[test]
fn single_num() {
    let toks = vec![Token { val: TokVal::Num("2".to_string()), span: (0, 1) }];
    let ast = parse_tokens(toks);
    assert_eq!(ast, Ok(number("2", (0, 1))));
}

#[test]
fn constants() {
    assert_eq!(
        parse_tokens(vec![Token { val: TokVal::Name("pi".to_string()), span: (0, 2) }]),
        Ok(leaf(AstVal::Const(ConstKind::Pi), (0, 2)))
    );

    assert_eq!(
        parse_tokens(vec![Token { val: TokVal::Name("π".to_string()), span: (0, 1) }]),
        Ok(leaf(AstVal::Const(ConstKind::Pi), (0, 1)))
    );

    assert_eq!(
        parse_tokens(vec![Token { val: TokVal::Name("e".to_string()), span: (0, 1) }]),
        Ok(leaf(AstVal::Const(ConstKind::E), (0, 1)))
    );

    assert_eq!(
        parse_tokens(vec![Token { val: TokVal::Name("phi".to_string()), span: (0, 3) }]),
        Ok(leaf(AstVal::Const(ConstKind::Phi), (0, 3)))
    );

    assert_eq!(
        parse_tokens(vec![Token { val: TokVal::Name("ϕ".to_string()), span: (0, 1) }]),
        Ok(leaf(AstVal::Const(ConstKind::Phi), (0, 1)))
    );
}

#[test]
fn parser_empty() {
    let toks = vec![];
    let err = parse_tokens(toks);
    assert!(err.is_err());
}

#[test]
fn empty_input_ends_unexpectedly() {
    let e = parse_tokens(vec![]).unwrap_err();
    assert_eq!(e.kind, ErrorKind::UnexpectedEndOfInput);
    assert_eq!(e.desc, "Expected number or constant");
    assert_eq!(e.span, Some((0, 0)));
}

#[test]
fn sum_node_has_the_span_of_its_operator() {
    let ast = parse_text("2+3").unwrap();
    assert_eq!(
        ast,
        node(AstVal::Op(OpKind::Plus), (1, 2), vec![number("2", (0, 1)), number("3", (2, 3))])
    );
    assert_eq!(ast.span, (1, 2));
    assert_eq!(ast.get_total_span(), (0, 3));
}

#[test]
fn product_binds_tighter_than_sum() {
    assert_eq!(shape_of("2+3*4"), "Plus(2,Mult(3,4))");
    assert_eq!(shape_of("2*3+4"), "Plus(Mult(2,3),4)");
}

#[test]
fn sums_and_products_associate_to_the_left() {
    assert_eq!(shape_of("1-2-3"), "Minus(Minus(1,2),3)");
    assert_eq!(shape_of("8/4/2"), "Div(Div(8,4),2)");
    assert_eq!(shape_of("1-2+3"), "Plus(Minus(1,2),3)");
}

#[test]
fn power_associates_to_the_right() {
    assert_eq!(shape_of("2^3^2"), "Pow(2,Pow(3,2))");
}

#[test]
fn negation_and_power() {
    assert_eq!(shape_of("-2^2"), "Neg(Pow(2,2))");
    assert_eq!(shape_of("2^-2"), "Pow(2,Neg(2))");
    assert_eq!(shape_of("--2"), "Neg(Neg(2))");
    assert_eq!(shape_of("3--2"), "Minus(3,Neg(2))");
}

#[test]
fn factorial_chains() {
    assert_eq!(shape_of("3!!"), "Fact(Fact(3))");
    assert_eq!(shape_of("2^3!"), "Pow(2,Fact(3))");
    assert_eq!(shape_of("(1+2)!"), "Fact(Plus(1,2))");
}

#[test]
fn groups_leave_no_node() {
    assert_eq!(shape_of("(2+3)*4"), "Mult(Plus(2,3),4)");
    assert_eq!(shape_of("[2+3]*{4}"), "Mult(Plus(2,3),4)");
    assert_eq!(parse_text("(7)").unwrap(), number("7", (1, 2)));
}

#[test]
fn function_application() {
    let ast = parse_text("sin(pi)").unwrap();
    assert_eq!(
        ast,
        node(AstVal::Func(FuncKind::Sin), (0, 3), vec![leaf(AstVal::Const(ConstKind::Pi), (4, 6))])
    );
    assert_eq!(shape_of("sqrt[4]+ln{e}"), "Plus(Sqrt(4),Ln(E))");
    assert_eq!(shape_of("√(4)"), "Sqrt(4)");
}

#[test]
fn bars_are_an_absolute_value_spanning_both_bars() {
    let ast = parse_text("|-3|").unwrap();
    assert_eq!(ast.val, AstVal::Func(FuncKind::Abs));
    assert_eq!(ast.span, (0, 4));
    assert_eq!(shape(&ast), "Abs(Neg(3))");
    assert_eq!(shape_of("||1||"), "Abs(Abs(1))");
}

#[test]
fn names_and_last_result() {
    assert_eq!(parse_text("ans").unwrap(), leaf(AstVal::LastResult, (0, 3)));
    assert_eq!(parse_text("foo").unwrap(), leaf(AstVal::Name("foo".to_string()), (0, 3)));
}

#[test]
fn assignment() {
    let ast = parse_text("x = 5").unwrap();
    assert_eq!(
        ast,
        node(
            AstVal::Op(OpKind::Assign),
            (2, 3),
            vec![leaf(AstVal::Name("x".to_string()), (0, 1)), number("5", (4, 5))]
        )
    );
    assert_eq!(ast.get_total_span(), (0, 5));
    assert_eq!(shape_of("y = 1 + 2"), "Assign(y,Plus(1,2))");
}

#[test]
fn assignment_targets_must_be_names() {
    let e = parse_text("pi = 3").unwrap_err();
    assert_eq!(e.kind, ErrorKind::InvalidAssignmentTarget);
    assert_eq!(e.desc, "Cannot assign to constant");
    assert_eq!(e.span, Some((0, 2)));

    let e = parse_text("ans = 3").unwrap_err();
    assert_eq!(e.desc, "Cannot assign to constant");

    let e = parse_text("3 = 3").unwrap_err();
    assert_eq!(e.desc, "Cannot assign to number");
    assert_eq!(e.span, Some((0, 1)));

    let e = parse_text("sin(1) = 3").unwrap_err();
    assert_eq!(e.desc, "Cannot assign to function");
    assert_eq!(e.span, Some((0, 5)));

    let e = parse_text("1 + x = 3").unwrap_err();
    assert_eq!(e.kind, ErrorKind::InvalidAssignmentTarget);
    assert_eq!(e.desc, "Cannot assign to equtation");
    assert_eq!(e.span, Some((0, 5)));
}

#[test]
fn missing_closing_delimiter() {
    assert_eq!(error_of("(1+2"), (ErrorKind::MissingClosingDelimiter, Some((0, 1))));
    assert_eq!(error_of("2*[1+2"), (ErrorKind::MissingClosingDelimiter, Some((2, 3))));
    assert_eq!(error_of("|1+2"), (ErrorKind::MissingClosingDelimiter, Some((0, 1))));
    assert_eq!(error_of("(1 2)"), (ErrorKind::MissingClosingDelimiter, Some((0, 1))));
}

#[test]
fn missing_opening_delimiter() {
    assert_eq!(error_of(")"), (ErrorKind::MissingOpeningDelimiter, Some((0, 1))));
    assert_eq!(error_of("1+2)"), (ErrorKind::MissingOpeningDelimiter, Some((3, 4))));
    assert_eq!(error_of("1]"), (ErrorKind::MissingOpeningDelimiter, Some((1, 2))));
    assert_eq!(error_of("1|"), (ErrorKind::MissingOpeningDelimiter, Some((1, 2))));
}

#[test]
fn delimiter_families_must_match() {
    assert_eq!(error_of("[1+2)"), (ErrorKind::UnmatchedDelimiter, Some((0, 1))));
    assert_eq!(error_of("(1+2}"), (ErrorKind::UnmatchedDelimiter, Some((0, 1))));
    assert!(parse_text("{[(1)]}").is_ok());
}

#[test]
fn bars_and_groups_do_not_close_each_other() {
    assert_eq!(error_of("|1)"), (ErrorKind::MissingOpeningDelimiter, Some((2, 3))));
    assert_eq!(error_of("(|1)"), (ErrorKind::MissingClosingDelimiter, Some((1, 2))));
    assert_eq!(error_of("(1|"), (ErrorKind::MissingOpeningDelimiter, Some((2, 3))));
    assert_eq!(error_of("|(1|)"), (ErrorKind::MissingClosingDelimiter, Some((1, 2))));
}

#[test]
fn function_needs_a_group() {
    let e = parse_text("sin 1").unwrap_err();
    assert_eq!(e.kind, ErrorKind::MissingFunctionArgument);
    assert_eq!(e.desc, "Missing opening delimiter after function");
    assert_eq!(e.span, Some((0, 3)));
    assert_eq!(error_of("sin"), (ErrorKind::MissingFunctionArgument, Some((0, 3))));
    assert_eq!(error_of("sin = 3"), (ErrorKind::MissingFunctionArgument, Some((0, 3))));
}

#[test]
fn operand_expected() {
    assert_eq!(error_of("*2"), (ErrorKind::ExpectedNumberOrConstant, Some((0, 1))));
    assert_eq!(error_of("2+*3"), (ErrorKind::ExpectedNumberOrConstant, Some((2, 3))));
    assert_eq!(error_of("()"), (ErrorKind::ExpectedNumberOrConstant, Some((1, 2))));
    assert_eq!(error_of("= 3"), (ErrorKind::ExpectedNumberOrConstant, Some((0, 1))));
}

#[test]
fn input_ends_where_an_operand_is_due() {
    assert_eq!(error_of("2+"), (ErrorKind::UnexpectedEndOfInput, Some((2, 2))));
    assert_eq!(error_of("2 * (3 - "), (ErrorKind::UnexpectedEndOfInput, Some((8, 8))));
    assert_eq!(error_of("-"), (ErrorKind::UnexpectedEndOfInput, Some((1, 1))));
    assert_eq!(error_of("x ="), (ErrorKind::UnexpectedEndOfInput, Some((3, 3))));
}

#[test]
fn operator_expected() {
    let e = parse_text("1 2").unwrap_err();
    assert_eq!(e.kind, ErrorKind::ExpectedOperator);
    assert_eq!(e.desc, "Expected operator");
    assert_eq!(e.span, Some((2, 3)));
    assert_eq!(error_of("2 (3)"), (ErrorKind::ExpectedOperator, Some((2, 3))));
    assert_eq!(error_of("sin(1)(2)"), (ErrorKind::ExpectedOperator, Some((6, 7))));
}

#[test]
fn builtin_names() {
    assert_eq!(get_builtin_name(&"ans".to_string()), Some(AstVal::LastResult));
    assert_eq!(get_builtin_name(&"pi".to_string()), Some(AstVal::Const(ConstKind::Pi)));
    assert_eq!(get_builtin_name(&"e".to_string()), Some(AstVal::Const(ConstKind::E)));
    assert_eq!(get_builtin_name(&"phi".to_string()), Some(AstVal::Const(ConstKind::Phi)));
    assert_eq!(get_builtin_name(&"sin".to_string()), Some(AstVal::Func(FuncKind::Sin)));
    assert_eq!(get_builtin_name(&"cos".to_string()), Some(AstVal::Func(FuncKind::Cos)));
    assert_eq!(get_builtin_name(&"tan".to_string()), Some(AstVal::Func(FuncKind::Tan)));
    assert_eq!(get_builtin_name(&"asin".to_string()), Some(AstVal::Func(FuncKind::Asin)));
    assert_eq!(get_builtin_name(&"acos".to_string()), Some(AstVal::Func(FuncKind::Acos)));
    assert_eq!(get_builtin_name(&"atan".to_string()), Some(AstVal::Func(FuncKind::Atan)));
    assert_eq!(get_builtin_name(&"sqrt".to_string()), Some(AstVal::Func(FuncKind::Sqrt)));
    assert_eq!(get_builtin_name(&"√".to_string()), Some(AstVal::Func(FuncKind::Sqrt)));
    assert_eq!(get_builtin_name(&"abs".to_string()), Some(AstVal::Func(FuncKind::Abs)));
    assert_eq!(get_builtin_name(&"exp".to_string()), Some(AstVal::Func(FuncKind::Exp)));
    assert_eq!(get_builtin_name(&"ln".to_string()), Some(AstVal::Func(FuncKind::Ln)));
    assert_eq!(get_builtin_name(&"log".to_string()), Some(AstVal::Func(FuncKind::Log)));
    assert_eq!(get_builtin_name(&"x".to_string()), None);
    assert_eq!(get_builtin_name(&"sinh".to_string()), None);
    assert_eq!(get_builtin_name(&"".to_string()), None);
}

fn arity(val: &AstVal) -> usize {
    match val {
        AstVal::Func(_) => 1,
        AstVal::Op(OpKind::Fact) | AstVal::Op(OpKind::Neg) => 1,
        AstVal::Op(_) => 2,
        _ => 0,
    }
}

fn arities_hold(ast: &Ast) -> bool {
    ast.branches.len() == arity(&ast.val) && ast.branches.iter().all(arities_hold)
}

#[test]
fn parsed_trees_have_the_arity_of_their_kind() {
    for text in [
        "1",
        "-1",
        "1+2*3^4!",
        "x = sin(|y| - cos[2^-3]) / {ans}",
        "sqrt(ln(exp(log(abs(tan(asin(acos(atan(1)))))))))",
        "((((1))))!!",
    ] {
        assert!(arities_hold(&parse_text(text).unwrap()), "{}", text);
    }
}
