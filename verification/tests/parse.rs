use lib::ast::{AtomBase, Expr, Lit, Stmt, Type};
use lib::lexer::{tokenize, ParseError, ParseErrorKind, TokenKind};
use lib::parse::{parse_program, AxisCoreParser};

/// The expression inside an application without arguments.
fn unapp(e: &Expr) -> &Expr {
    match e {
        Expr::App { head, args } if args.is_empty() => head,
        _ => panic!("application expected"),
    }
}

fn err_at(src: &str, needle: &str, kind: ParseErrorKind) -> Result<(), ParseError> {
    Err(ParseError { position: src.find(needle).expect("needle"), kind })
}

#[test]
fn parse_program_accepts_a_function() {
    assert_eq!(parse_program("fn main(x: Int) -> Int { x }"), Ok(()));
}

#[test]
fn parse_empty_program() {
    let prog = AxisCoreParser::parse("").expect("parse failed");
    assert!(prog.functions.is_empty());
    let prog = AxisCoreParser::parse("  // only a comment\n\t").expect("parse failed");
    assert!(prog.functions.is_empty());
}

#[test]
fn parse_several_functions_in_order() {
    let src = "fn a(x: Int) -> Int { x }\n// second\nfn b(y: (Int, Bool)) -> Bool { y.2 }";
    let prog = AxisCoreParser::parse(src).expect("parse failed");
    assert_eq!(prog.functions.len(), 2);
    assert_eq!(prog.functions[0].name.0, "a");
    assert_eq!(prog.functions[1].name.0, "b");
    assert_eq!(prog.functions[1].param.ty, Type::Tuple(vec![Type::Int, Type::Bool]));
    assert_eq!(prog.functions[1].ret_type, Type::Bool);
}

#[test]
fn parse_function_types_associate_to_the_right() {
    let src = "fn f(g: Int -> Bool -> Unit) -> (Int) { () }";
    let prog = AxisCoreParser::parse(src).expect("parse failed");
    let f = &prog.functions[0];
    assert_eq!(
        f.param.ty,
        Type::Func(Box::new(Type::Int), Box::new(Type::Func(Box::new(Type::Bool), Box::new(Type::Unit))))
    );
    assert_eq!(f.ret_type, Type::Int);
}

#[test]
fn parse_statements() {
    let src = "fn main(x: Int) -> Int { let a: Int = 1; a = 2; a; }";
    let prog = AxisCoreParser::parse(src).expect("parse failed");
    let body = &prog.functions[0].body;
    assert_eq!(body.stmts.len(), 3);
    assert!(matches!(body.stmts[0], Stmt::Let { .. }));
    assert!(matches!(body.stmts[1], Stmt::Rebind { .. }));
    assert!(matches!(body.stmts[2], Stmt::Expr { .. }));
    match &body.expr {
        Expr::Atom(a) => {
            assert!(matches!(a.base, AtomBase::Lit(Lit::Unit)));
            assert!(a.projs.is_empty());
        }
        _ => panic!("a block without a final expression ends with ()"),
    }
}

#[test]
fn parse_negative_and_extreme_literals() {
    let src = "fn main(x: Int) -> Int { (-5, -9223372036854775808, 9223372036854775807) }";
    let prog = AxisCoreParser::parse(src).expect("parse failed");
    match unapp(&prog.functions[0].body.expr) {
        Expr::Atom(a) => match &a.base {
            AtomBase::Tuple(xs) => {
                let lits: Vec<Lit> = xs
                    .iter()
                    .map(|e| match unapp(e) {
                        Expr::Atom(b) => match b.base {
                            AtomBase::Lit(l) => l,
                            _ => panic!("literal expected"),
                        },
                        _ => panic!("atom expected"),
                    })
                    .collect();
                assert_eq!(lits, vec![Lit::Int(-5), Lit::Int(i64::MIN), Lit::Int(i64::MAX)]);
            }
            _ => panic!("tuple expected"),
        },
        _ => panic!("atom expected"),
    }
}

#[test]
fn parse_reports_invalid_character() {
    let src = "fn main(x: Int) -> Int { 1 # }";
    assert_eq!(parse_program(src), err_at(src, "#", ParseErrorKind::InvalidCharacter));
}

#[test]
fn parse_reports_integer_out_of_range() {
    let src = "fn main(x: Int) -> Int { 9223372036854775808 }";
    assert_eq!(parse_program(src), err_at(src, "9223", ParseErrorKind::IntegerOutOfRange));
    let src2 = "fn main(x: Int) -> Int { 99999999999999999999999 }";
    assert_eq!(parse_program(src2), err_at(src2, "9999", ParseErrorKind::IntegerOutOfRange));
}

#[test]
fn parse_reports_unexpected_token() {
    let src = "fn main(x: Int) -> Int { let }";
    assert_eq!(parse_program(src), err_at(src, "}", ParseErrorKind::UnexpectedToken));
    let src2 = "fn main(x: Int) Int { x }";
    assert_eq!(parse_program(src2), err_at(src2, "Int {", ParseErrorKind::UnexpectedToken));
    let src3 = "fn main(x: Int) -> Int { x ";
    assert_eq!(parse_program(src3), Err(ParseError { position: src3.len(), kind: ParseErrorKind::UnexpectedToken }));
}

#[test]
fn tokenize_words_numbers_and_punctuation() {
    let ts = tokenize("let a1: Int -> Int = -3; // done").expect("tokenize failed");
    let kinds: Vec<&TokenKind> = ts.iter().map(|t| &t.kind).collect();
    assert_eq!(
        kinds,
        vec![
            &TokenKind::KwLet,
            &TokenKind::Ident("a1".to_string()),
            &TokenKind::Colon,
            &TokenKind::KwInt,
            &TokenKind::Arrow,
            &TokenKind::KwInt,
            &TokenKind::Eq,
            &TokenKind::Int { negative: true, magnitude: 3 },
            &TokenKind::Semi,
            &TokenKind::Eof,
        ]
    );
    let starts: Vec<usize> = ts.iter().map(|t| t.start).collect();
    assert_eq!(starts, vec![0, 4, 6, 8, 12, 15, 19, 21, 23, 32]);
}
