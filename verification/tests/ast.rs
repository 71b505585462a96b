use calcr::ast::{Ast, AstVal, FuncKind, OpKind};
use calcr::errors::ErrorKind;
use calcr::token;
use calcr::token::{DelimKind, TokVal};

fn leaf(span: (usize, usize)) -> Ast {
    Ast { val: AstVal::Num("1".to_string()), span, branches: vec![] }
}

#[test]
fn leaves() {
    assert!(leaf((0, 1)).is_leaf());
    let node = Ast { val: AstVal::Func(FuncKind::Sin), span: (0, 3), branches: vec![leaf((4, 5))] };
    assert!(!node.is_leaf());
}

#[test]
fn unary_branch() {
    let node = Ast { val: AstVal::Func(FuncKind::Sin), span: (0, 3), branches: vec![leaf((4, 5))] };
    assert_eq!(node.get_unary_branch(), Ok(&leaf((4, 5))));

    let e = leaf((0, 1)).get_unary_branch().unwrap_err();
    assert_eq!(e.kind, ErrorKind::InternalError);
    assert_eq!(e.desc, "Internal error - expected AST to have 1 branch");
    assert_eq!(e.span, None);

    let two =
        Ast { val: AstVal::Op(OpKind::Plus), span: (1, 2), branches: vec![leaf((0, 1)), leaf((2, 3))] };
    assert!(two.get_unary_branch().is_err());
}

#[test]
fn binary_branches() {
    let two =
        Ast { val: AstVal::Op(OpKind::Plus), span: (1, 2), branches: vec![leaf((0, 1)), leaf((2, 3))] };
    assert_eq!(two.get_binary_branches(), Ok((&leaf((0, 1)), &leaf((2, 3)))));

    let e = leaf((0, 1)).get_binary_branches().unwrap_err();
    assert_eq!(e.kind, ErrorKind::InternalError);
    assert_eq!(e.desc, "Internal error - expected AST to have 2 branches");
    assert_eq!(e.span, None);
}

#[test]
fn total_span_covers_the_subtree() {
    assert_eq!(leaf((3, 7)).get_total_span(), (3, 7));
    let inner =
        Ast { val: AstVal::Op(OpKind::Mult), span: (5, 6), branches: vec![leaf((4, 5)), leaf((6, 9))] };
    let outer = Ast { val: AstVal::Op(OpKind::Plus), span: (3, 4), branches: vec![leaf((1, 2)), inner] };
    assert_eq!(outer.get_total_span(), (1, 9));
    // the node's own span counts as well
    let wide = Ast { val: AstVal::Func(FuncKind::Abs), span: (0, 10), branches: vec![leaf((1, 9))] };
    assert_eq!(wide.get_total_span(), (0, 10));
}

#[test]
fn operators_convert() {
    assert_eq!(OpKind::from(token::OpKind::Plus), OpKind::Plus);
    assert_eq!(OpKind::from(token::OpKind::Minus), OpKind::Minus);
    assert_eq!(OpKind::from(token::OpKind::Mult), OpKind::Mult);
    assert_eq!(OpKind::from(token::OpKind::Div), OpKind::Div);
    assert_eq!(OpKind::from(token::OpKind::Pow), OpKind::Pow);
    assert_eq!(OpKind::from(token::OpKind::Fact), OpKind::Fact);
    assert_eq!(OpKind::from(token::OpKind::Assign), OpKind::Assign);
    let op: OpKind = token::OpKind::Div.into();
    assert_eq!(op, OpKind::Div);
}

#[test]
fn token_values() {
    assert_eq!(TokVal::Op(token::OpKind::Pow).op(), Some(token::OpKind::Pow));
    assert_eq!(TokVal::AbsDelim.op(), None);
    assert_eq!(TokVal::Name("x".to_string()).op(), None);
    assert!(TokVal::OpenDelim(DelimKind::Brace).is_open_delim());
    assert!(!TokVal::CloseDelim(DelimKind::Brace).is_open_delim());
    assert!(TokVal::CloseDelim(DelimKind::Paren).is_close_delim());
    assert!(!TokVal::OpenDelim(DelimKind::Paren).is_close_delim());
    assert!(!TokVal::AbsDelim.is_close_delim());
    assert_eq!(TokVal::Num("1.5".to_string()).clone(), TokVal::Num("1.5".to_string()));
}
