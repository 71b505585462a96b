use calcr::errors::ErrorKind;
use calcr::lexer::{lex_equation, Lexer};
use calcr::token::{DelimKind, OpKind, TokVal, Token};

fn num(text: &str, span: (usize, usize)) -> Token {
    Token { val: TokVal::Num(text.to_string()), span }
}

fn name(text: &str, span: (usize, usize)) -> Token {
    Token { val: TokVal::Name(text.to_string()), span }
}

fn op(kind: OpKind, span: (usize, usize)) -> Token {
    Token { val: TokVal::Op(kind), span }
}

#[test]
fn lexer_empty() {
    let eq = "".to_string();
    let toks = lex_equation(&eq);
    assert_eq!(toks, Ok(vec![]));
}

#[test]
fn single_char() {
    let eq = "2".to_string();
    let toks = lex_equation(&eq);
    assert_eq!(toks, Ok(vec![num("2", (0, 1))]));
}

#[test]
fn utf8() {
    let eq = "π𐍈".to_string();
    let toks = lex_equation(&eq);
    assert_eq!(toks, Ok(vec![Token { val: TokVal::Name(eq), span: (0, 2) }]));
}

#[test]
fn ops() {
    let eq = "+-*/!^".to_string();
    let toks = lex_equation(&eq);
    assert_eq!(
        toks,
        Ok(vec![
            op(OpKind::Plus, (0, 1)),
            op(OpKind::Minus, (1, 2)),
            op(OpKind::Mult, (2, 3)),
            op(OpKind::Div, (3, 4)),
            op(OpKind::Fact, (4, 5)),
            op(OpKind::Pow, (5, 6)),
        ])
    );
}

#[test]
fn invalid_char() {
    let eq = "?".to_string();
    let err = lex_equation(&eq);
    assert!(err.is_err());
}

#[test]
fn invalid_char_is_located() {
    let err = lex_equation(&"12 + ?3".to_string()).unwrap_err();
    assert_eq!(err.kind, ErrorKind::InvalidChar);
    assert_eq!(err.desc, "Invalid char: ?");
    assert_eq!(err.span, Some((5, 6)));
}

#[test]
fn spans_of_a_sum() {
    let toks = lex_equation(&"2+3".to_string()).unwrap();
    assert_eq!(toks, vec![num("2", (0, 1)), op(OpKind::Plus, (1, 2)), num("3", (2, 3))]);
}

#[test]
fn white_space_is_skipped_but_counted() {
    let toks = lex_equation(&"  12.5 \t* x\n".to_string()).unwrap();
    assert_eq!(
        toks,
        vec![num("12.5", (2, 6)), op(OpKind::Mult, (8, 9)), name("x", (10, 11))]
    );
}

#[test]
fn only_white_space() {
    assert_eq!(lex_equation(&" \t ".to_string()), Ok(vec![]));
}

#[test]
fn names_are_lower_cased() {
    let toks = lex_equation(&"SiN Pi".to_string()).unwrap();
    assert_eq!(toks, vec![name("sin", (0, 3)), name("pi", (4, 6))]);
}

#[test]
fn upper_case_greek_is_lower_cased() {
    let toks = lex_equation(&"Π".to_string()).unwrap();
    assert_eq!(toks, vec![name("π", (0, 1))]);
}

#[test]
fn delimiters_and_assignment() {
    let toks = lex_equation(&"x=([{|}])".to_string()).unwrap();
    let vals: Vec<TokVal> = toks.into_iter().map(|t| t.val).collect();
    assert_eq!(
        vals,
        vec![
            TokVal::Name("x".to_string()),
            TokVal::Op(OpKind::Assign),
            TokVal::OpenDelim(DelimKind::Paren),
            TokVal::OpenDelim(DelimKind::Bracket),
            TokVal::OpenDelim(DelimKind::Brace),
            TokVal::AbsDelim,
            TokVal::CloseDelim(DelimKind::Brace),
            TokVal::CloseDelim(DelimKind::Bracket),
            TokVal::CloseDelim(DelimKind::Paren),
        ]
    );
}

#[test]
fn radical_sign_is_sqrt() {
    let toks = lex_equation(&"√4".to_string()).unwrap();
    assert_eq!(toks, vec![name("sqrt", (0, 1)), num("4", (1, 2))]);
}

#[test]
fn number_forms() {
    assert_eq!(lex_equation(&"007".to_string()), Ok(vec![num("007", (0, 3))]));
    assert_eq!(lex_equation(&"5.".to_string()), Ok(vec![num("5.", (0, 2))]));
    assert_eq!(lex_equation(&"0.25".to_string()), Ok(vec![num("0.25", (0, 4))]));
}

#[test]
fn number_with_two_points_is_invalid() {
    let err = lex_equation(&"1 + 1.2.3".to_string()).unwrap_err();
    assert_eq!(err.kind, ErrorKind::InvalidNumber);
    assert_eq!(err.desc, "Invalid number: 1.2.3");
    assert_eq!(err.span, Some((4, 9)));
}

#[test]
fn number_of_other_digits_is_invalid() {
    // ARABIC-INDIC DIGIT THREE is numeric, and no digit of a decimal literal.
    let err = lex_equation(&"٣".to_string()).unwrap_err();
    assert_eq!(err.kind, ErrorKind::InvalidNumber);
    assert_eq!(err.span, Some((0, 1)));
}

#[test]
fn leading_point_starts_no_number() {
    let err = lex_equation(&".5".to_string()).unwrap_err();
    assert_eq!(err.kind, ErrorKind::InvalidChar);
    assert_eq!(err.span, Some((0, 1)));
}

#[test]
fn first_error_wins() {
    let err = lex_equation(&"1.2.3 ?".to_string()).unwrap_err();
    assert_eq!(err.kind, ErrorKind::InvalidNumber);
}

#[test]
fn spans_count_characters_not_bytes() {
    let toks = lex_equation(&"π+ϕ".to_string()).unwrap();
    assert_eq!(toks, vec![name("π", (0, 1)), op(OpKind::Plus, (1, 2)), name("ϕ", (2, 3))]);
}

#[test]
fn a_lexer_can_be_driven_directly() {
    let mut lexer = Lexer::new(&"1 + x".to_string());
    assert_eq!(
        lexer.lex_equation(),
        Ok(vec![num("1", (0, 1)), op(OpKind::Plus, (2, 3)), name("x", (4, 5))])
    );
    // nothing is left
    assert_eq!(lexer.lex_equation(), Ok(vec![]));
}
