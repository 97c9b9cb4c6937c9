use xalang::language::{Block, Expression, Op, Program, Statement};
use xalang::lexer::{token, TOKEN_TYPE};
use xalang::parser::gen_ast;

fn t(tok_type: TOKEN_TYPE) -> token {
    token::bare(tok_type)
}

fn var(name: &str) -> token {
    token::with_val(TOKEN_TYPE::VAR, String::from(name))
}

fn lit(text: &str) -> token {
    token::with_val(TOKEN_TYPE::INT_LIT, String::from(text))
}

#[test]
fn just_assign() {
    // variable = 4;
    // variabletwo = 3 + 9;
    let tokens = vec![
        var("variable"),
        t(TOKEN_TYPE::ASSIGN),
        lit("4"),
        t(TOKEN_TYPE::SC),
        var("variabletwo"),
        t(TOKEN_TYPE::ASSIGN),
        lit("3"),
        t(TOKEN_TYPE::PLUS),
        lit("9"),
        t(TOKEN_TYPE::SC),
        t(TOKEN_TYPE::EOF_TOK),
    ];

    let parse_result = gen_ast(&tokens);
    let ast;
    match parse_result {
        Err(e) => panic!("AST generation returned Err: {:?}", e),
        Ok(a) => ast = a,
    }

    let predicted = Program {
        program: Block {
            statements: vec![
                Statement::AssignStatement {
                    var: String::from("variable"),
                    exp: Expression::Val(4),
                },
                Statement::AssignStatement {
                    var: String::from("variabletwo"),
                    exp: Expression::BinOp(
                        Op::Add,
                        Box::new(Expression::Val(3)),
                        Box::new(Expression::Val(9)),
                    ),
                },
            ],
        },
    };

    assert_eq!(ast, predicted);
}

#[test]
fn just_repeat() {
    // repeat (4) { x = 5; }
    // repeat (4 + 5) { y = 2; }
    let tokens = vec![
        t(TOKEN_TYPE::REPEAT),
        t(TOKEN_TYPE::LPAR),
        lit("4"),
        t(TOKEN_TYPE::RPAR),
        t(TOKEN_TYPE::LBRA),
        var("x"),
        t(TOKEN_TYPE::ASSIGN),
        lit("5"),
        t(TOKEN_TYPE::SC),
        t(TOKEN_TYPE::RBRA),
        t(TOKEN_TYPE::REPEAT),
        t(TOKEN_TYPE::LPAR),
        lit("4"),
        t(TOKEN_TYPE::PLUS),
        lit("5"),
        t(TOKEN_TYPE::RPAR),
        t(TOKEN_TYPE::LBRA),
        var("y"),
        t(TOKEN_TYPE::ASSIGN),
        lit("2"),
        t(TOKEN_TYPE::SC),
        t(TOKEN_TYPE::RBRA),
        t(TOKEN_TYPE::EOF_TOK),
    ];

    let parse_result = gen_ast(&tokens);
    let ast;
    match parse_result {
        Err(e) => panic!("AST generation returned Err: {:?}", e),
        Ok(a) => ast = a,
    }

    let predicted = Program {
        program: Block {
            statements: vec![
                Statement::RepeatStatement {
                    times: Expression::Val(4),
                    body: Block {
                        statements: vec![Statement::AssignStatement {
                            var: String::from("x"),
                            exp: Expression::Val(5),
                        }],
                    },
                },
                Statement::RepeatStatement {
                    times: Expression::BinOp(
                        Op::Add,
                        Box::new(Expression::Val(4)),
                        Box::new(Expression::Val(5)),
                    ),
                    body: Block {
                        statements: vec![Statement::AssignStatement {
                            var: String::from("y"),
                            exp: Expression::Val(2),
                        }],
                    },
                },
            ],
        },
    };

    assert_eq!(ast, predicted);
}

#[test]
fn just_if() {
    // if (1) { x = 5; }
    // elseif (3 == 3) { y = 2; }
    // elseif (1 - 1) { z = 5; }
    // else { abc = 0; }
    // if (0) { abcd = 1; }
    let tokens = vec![
        t(TOKEN_TYPE::IF),
        t(TOKEN_TYPE::LPAR),
        lit("1"),
        t(TOKEN_TYPE::RPAR),
        t(TOKEN_TYPE::LBRA),
        var("x"),
        t(TOKEN_TYPE::ASSIGN),
        lit("5"),
        t(TOKEN_TYPE::SC),
        t(TOKEN_TYPE::RBRA),
        t(TOKEN_TYPE::ELSEIF),
        t(TOKEN_TYPE::LPAR),
        lit("3"),
        t(TOKEN_TYPE::EQ),
        lit("3"),
        t(TOKEN_TYPE::RPAR),
        t(TOKEN_TYPE::LBRA),
        var("y"),
        t(TOKEN_TYPE::ASSIGN),
        lit("2"),
        t(TOKEN_TYPE::SC),
        t(TOKEN_TYPE::RBRA),
        t(TOKEN_TYPE::ELSEIF),
        t(TOKEN_TYPE::LPAR),
        lit("1"),
        t(TOKEN_TYPE::MINUS),
        lit("1"),
        t(TOKEN_TYPE::RPAR),
        t(TOKEN_TYPE::LBRA),
        var("z"),
        t(TOKEN_TYPE::ASSIGN),
        lit("5"),
        t(TOKEN_TYPE::SC),
        t(TOKEN_TYPE::RBRA),
        t(TOKEN_TYPE::ELSE),
        t(TOKEN_TYPE::LBRA),
        var("abc"),
        t(TOKEN_TYPE::ASSIGN),
        lit("0"),
        t(TOKEN_TYPE::SC),
        t(TOKEN_TYPE::RBRA),
        t(TOKEN_TYPE::IF),
        t(TOKEN_TYPE::LPAR),
        lit("0"),
        t(TOKEN_TYPE::RPAR),
        t(TOKEN_TYPE::LBRA),
        var("abcd"),
        t(TOKEN_TYPE::ASSIGN),
        lit("1"),
        t(TOKEN_TYPE::SC),
        t(TOKEN_TYPE::RBRA),
        t(TOKEN_TYPE::EOF_TOK),
    ];

    let parse_result = gen_ast(&tokens);
    let ast;
    match parse_result {
        Err(e) => panic!("AST generation returned Err: {:?}", e),
        Ok(a) => ast = a,
    }

    let predicted = Program {
        program: Block {
            statements: vec![
                Statement::IfStatement {
                    condition: Expression::Val(1),
                    body: Block {
                        statements: vec![Statement::AssignStatement {
                            var: String::from("x"),
                            exp: Expression::Val(5),
                        }],
                    },
                    else_if: vec![
                        (
                            Expression::BinOp(
                                Op::Equal,
                                Box::new(Expression::Val(3)),
                                Box::new(Expression::Val(3)),
                            ),
                            Block {
                                statements: vec![Statement::AssignStatement {
                                    var: String::from("y"),
                                    exp: Expression::Val(2),
                                }],
                            },
                        ),
                        (
                            Expression::BinOp(
                                Op::Sub,
                                Box::new(Expression::Val(1)),
                                Box::new(Expression::Val(1)),
                            ),
                            Block {
                                statements: vec![Statement::AssignStatement {
                                    var: String::from("z"),
                                    exp: Expression::Val(5),
                                }],
                            },
                        ),
                    ],
                    else_body: Block {
                        statements: vec![Statement::AssignStatement {
                            var: String::from("abc"),
                            exp: Expression::Val(0),
                        }],
                    },
                },
                Statement::IfStatement {
                    condition: Expression::Val(0),
                    body: Block {
                        statements: vec![Statement::AssignStatement {
                            var: String::from("abcd"),
                            exp: Expression::Val(1),
                        }],
                    },
                    else_if: vec![],
                    else_body: Block { statements: vec![] },
                },
            ],
        },
    };

    assert_eq!(ast, predicted);
}
