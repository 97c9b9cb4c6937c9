use xalang::interpreter::{
    interpret, pub_access_test, pub_assign_test, pub_eval_binop_test, pub_eval_test,
    pub_run_block, ErrorType, Memory,
};
use xalang::language::{Block, Expression, Op, Program, Statement};
use xalang::lexer::{token, TOKEN_TYPE};
use xalang::parser::{gen_ast, token_to_op, ParseError};

fn t(tok_type: TOKEN_TYPE) -> token {
    token::bare(tok_type)
}

fn var(name: &str) -> token {
    token::with_val(TOKEN_TYPE::VAR, String::from(name))
}

fn lit(text: &str) -> token {
    token::with_val(TOKEN_TYPE::INT_LIT, String::from(text))
}

/// Tokens of `x = 0; repeat (10) { x = x + 1; } output x;`.
fn counting_program() -> Vec<token> {
    vec![
        var("x"),
        t(TOKEN_TYPE::ASSIGN),
        lit("0"),
        t(TOKEN_TYPE::SC),
        t(TOKEN_TYPE::REPEAT),
        t(TOKEN_TYPE::LPAR),
        lit("10"),
        t(TOKEN_TYPE::RPAR),
        t(TOKEN_TYPE::LBRA),
        var("x"),
        t(TOKEN_TYPE::ASSIGN),
        var("x"),
        t(TOKEN_TYPE::PLUS),
        lit("1"),
        t(TOKEN_TYPE::SC),
        t(TOKEN_TYPE::RBRA),
        t(TOKEN_TYPE::OUTPUT),
        var("x"),
        t(TOKEN_TYPE::SC),
        t(TOKEN_TYPE::EOF_TOK),
    ]
}

#[test]
fn reparse_is_deterministic() {
    let tokens = counting_program();
    let first = gen_ast(&tokens).expect("parse failed");
    let second = gen_ast(&tokens).expect("parse failed");
    assert_eq!(first, second);
}

#[test]
fn parser_stops_at_first_end_marker() {
    let mut tokens = counting_program();
    let plain = gen_ast(&tokens).expect("parse failed");

    // Anything after the first end-marker is never read.
    tokens.push(t(TOKEN_TYPE::INVALID));
    tokens.push(t(TOKEN_TYPE::ASSIGN));
    tokens.push(t(TOKEN_TYPE::EOF_TOK));
    let with_junk = gen_ast(&tokens).expect("parse failed");

    assert_eq!(plain, with_junk);
}

#[test]
fn assign_then_read_round_trip() {
    let mut memory = Memory::new();
    pub_assign_test("other", 17, &mut memory);
    pub_assign_test("n", -4, &mut memory);
    pub_assign_test("n", 12, &mut memory);
    assert_eq!(
        pub_eval_test(&Expression::Var(String::from("n")), &mut memory),
        Ok(12)
    );
    assert_eq!(
        pub_eval_test(&Expression::Var(String::from("other")), &mut memory),
        Ok(17)
    );
}

#[test]
fn unassigned_read_names_the_variable() {
    let mut empty = Memory::new();
    assert_eq!(
        pub_access_test("pending", &mut empty),
        Err(ErrorType::UninitialisedMemory(String::from(
            "Variable \"pending\" has not been assigned"
        )))
    );

    let mut busy = Memory::new();
    pub_assign_test("a", 1, &mut busy);
    pub_assign_test("b", 2, &mut busy);
    assert_eq!(
        pub_eval_test(&Expression::Var(String::from("pending")), &mut busy),
        Err(ErrorType::UninitialisedMemory(String::from(
            "Variable \"pending\" has not been assigned"
        )))
    );
}

#[test]
fn negative_repeat_leaves_no_trace() {
    let mut memory = Memory::new();
    let mut output_vec = Vec::new();
    pub_assign_test("x", 7, &mut memory);

    // repeat (0 - 5) { x = 1; output 9; }
    let code = Block {
        statements: vec![Statement::RepeatStatement {
            times: Expression::BinOp(
                Op::Sub,
                Box::new(Expression::Val(0)),
                Box::new(Expression::Val(5)),
            ),
            body: Block {
                statements: vec![
                    Statement::AssignStatement { var: String::from("x"), exp: Expression::Val(1) },
                    Statement::OutputStatement { to_output: Expression::Val(9) },
                ],
            },
        }],
    };

    assert_eq!(
        pub_run_block(&code, &mut memory, &mut output_vec),
        Err(ErrorType::NegativeRepeateError)
    );
    // The store and the output are unchanged from before the statement.
    assert_eq!(pub_access_test("x", &mut memory), Ok(7));
    assert_eq!(output_vec, Vec::<i32>::new());
}

fn run_counting_loop(k: i32) -> i32 {
    let mut memory = Memory::new();
    let mut output_vec = Vec::new();
    let code = Block {
        statements: vec![
            Statement::AssignStatement { var: String::from("x"), exp: Expression::Val(0) },
            Statement::RepeatStatement {
                times: Expression::Val(k),
                body: Block {
                    statements: vec![Statement::AssignStatement {
                        var: String::from("x"),
                        exp: Expression::BinOp(
                            Op::Add,
                            Box::new(Expression::Var(String::from("x"))),
                            Box::new(Expression::Val(1)),
                        ),
                    }],
                },
            },
        ],
    };
    pub_run_block(&code, &mut memory, &mut output_vec).expect("run failed");
    pub_access_test("x", &mut memory).expect("x unset")
}

#[test]
fn repeat_count_reaches_exactly_k() {
    assert_eq!(run_counting_loop(0), 0);
    assert_eq!(run_counting_loop(1), 1);
    assert_eq!(run_counting_loop(10), 10);
}

#[test]
fn first_true_elseif_wins() {
    let mut memory = Memory::new();
    let mut output_vec = Vec::new();

    // if (0) { r = 0; } elseif (1) { r = 1; } elseif (1) { r = 2; }
    let code = Block {
        statements: vec![Statement::IfStatement {
            condition: Expression::Val(0),
            body: Block {
                statements: vec![Statement::AssignStatement {
                    var: String::from("r"),
                    exp: Expression::Val(0),
                }],
            },
            else_if: vec![
                (
                    Expression::Val(1),
                    Block {
                        statements: vec![Statement::AssignStatement {
                            var: String::from("r"),
                            exp: Expression::Val(1),
                        }],
                    },
                ),
                (
                    Expression::Val(1),
                    Block {
                        statements: vec![Statement::AssignStatement {
                            var: String::from("r"),
                            exp: Expression::Val(2),
                        }],
                    },
                ),
            ],
            else_body: Block { statements: vec![] },
        }],
    };

    pub_run_block(&code, &mut memory, &mut output_vec).expect("run failed");
    assert_eq!(pub_access_test("r", &mut memory), Ok(1));
}

#[test]
fn all_false_conditions_run_only_else() {
    let branch = |v: i32| Block {
        statements: vec![Statement::AssignStatement {
            var: String::from("r"),
            exp: Expression::Val(v),
        }],
    };

    // With an else-body: exactly that body runs.
    let mut memory = Memory::new();
    let mut output_vec = Vec::new();
    let code = Block {
        statements: vec![Statement::IfStatement {
            condition: Expression::Val(0),
            body: branch(0),
            else_if: vec![(Expression::Val(0), branch(1)), (Expression::Val(0), branch(2))],
            else_body: branch(4),
        }],
    };
    pub_run_block(&code, &mut memory, &mut output_vec).expect("run failed");
    assert_eq!(pub_access_test("r", &mut memory), Ok(4));

    // With an empty else-body: no effect at all.
    let mut memory2 = Memory::new();
    let mut output2 = Vec::new();
    let code2 = Block {
        statements: vec![Statement::IfStatement {
            condition: Expression::Val(0),
            body: branch(0),
            else_if: vec![(Expression::Val(0), branch(1))],
            else_body: Block { statements: vec![] },
        }],
    };
    pub_run_block(&code2, &mut memory2, &mut output2).expect("run failed");
    assert!(pub_access_test("r", &mut memory2).is_err());
    assert_eq!(output2, Vec::<i32>::new());
}

#[test]
fn arithmetic_wraps_around_the_32_bit_range() {
    let mut memory = Memory::new();
    assert_eq!(
        pub_eval_binop_test(
            &Op::Add,
            &Expression::Val(i32::MAX),
            &Expression::Val(1),
            &mut memory
        ),
        Ok(i32::MIN)
    );
    assert_eq!(
        pub_eval_binop_test(
            &Op::Sub,
            &Expression::Val(i32::MIN),
            &Expression::Val(1),
            &mut memory
        ),
        Ok(i32::MAX)
    );
}

#[test]
fn operators_without_semantics_are_unimplemented() {
    let mut memory = Memory::new();
    for op in [
        Op::Multiply,
        Op::Divide,
        Op::Remainder,
        Op::And,
        Op::Or,
        Op::NotEqual,
        Op::LessThanOrEqual,
        Op::LessThan,
        Op::GreaterThanOrEqual,
        Op::GreaterThan,
    ] {
        assert_eq!(
            pub_eval_binop_test(&op, &Expression::Val(1), &Expression::Val(2), &mut memory),
            Err(ErrorType::NotImplimented)
        );
    }
}

#[test]
fn end_to_end_counting_program_outputs_ten() {
    let tokens = counting_program();
    let ast = gen_ast(&tokens).expect("parse failed");
    let output = interpret(ast).expect("run failed");
    assert_eq!(output, vec![10]);
}

#[test]
fn end_to_end_unassigned_output_fails_with_no_output() {
    // output y;
    let tokens = vec![
        t(TOKEN_TYPE::OUTPUT),
        var("y"),
        t(TOKEN_TYPE::SC),
        t(TOKEN_TYPE::EOF_TOK),
    ];
    let ast = gen_ast(&tokens).expect("parse failed");
    assert_eq!(
        interpret(ast),
        Err(ErrorType::UninitialisedMemory(String::from(
            "Variable \"y\" has not been assigned"
        )))
    );
}

#[test]
fn syntax_errors_report_the_unexpected_token() {
    // A statement cannot start with `=`.
    let tokens = vec![t(TOKEN_TYPE::ASSIGN), t(TOKEN_TYPE::EOF_TOK)];
    assert!(matches!(
        gen_ast(&tokens),
        Err(ParseError::UnexpectedToken(TOKEN_TYPE::ASSIGN))
    ));

    // A missing semicolon is reported at the token found instead.
    let tokens2 = vec![
        var("x"),
        t(TOKEN_TYPE::ASSIGN),
        lit("1"),
        t(TOKEN_TYPE::EOF_TOK),
    ];
    assert!(matches!(
        gen_ast(&tokens2),
        Err(ParseError::UnexpectedToken(TOKEN_TYPE::EOF_TOK))
    ));
}

#[test]
fn operator_tokens_map_to_operators() {
    assert_eq!(token_to_op(TOKEN_TYPE::PLUS), Ok(Op::Add));
    assert_eq!(token_to_op(TOKEN_TYPE::MOD), Ok(Op::Remainder));
    assert_eq!(token_to_op(TOKEN_TYPE::NEQ), Ok(Op::NotEqual));
    assert_eq!(
        token_to_op(TOKEN_TYPE::SC),
        Err(ParseError::UnknownOperator(TOKEN_TYPE::SC))
    );
}

#[test]
fn malformed_names_and_literals_are_rejected() {
    // An identifier token whose spelling the scanner could not deliver.
    let tokens = vec![
        token { tok_type: TOKEN_TYPE::VAR, val: None },
        t(TOKEN_TYPE::ASSIGN),
        lit("1"),
        t(TOKEN_TYPE::SC),
        t(TOKEN_TYPE::EOF_TOK),
    ];
    assert!(matches!(gen_ast(&tokens), Err(ParseError::VariableParseError)));

    // An integer literal without a spelling.
    let tokens2 = vec![
        var("x"),
        t(TOKEN_TYPE::ASSIGN),
        token { tok_type: TOKEN_TYPE::INT_LIT, val: None },
        t(TOKEN_TYPE::SC),
        t(TOKEN_TYPE::EOF_TOK),
    ];
    assert!(matches!(gen_ast(&tokens2), Err(ParseError::IntegerParseError)));

    // A literal beyond the 32-bit signed range.
    let tokens3 = vec![
        var("x"),
        t(TOKEN_TYPE::ASSIGN),
        lit("2147483648"),
        t(TOKEN_TYPE::SC),
        t(TOKEN_TYPE::EOF_TOK),
    ];
    assert!(matches!(gen_ast(&tokens3), Err(ParseError::IntegerParseError)));

    // A literal with a stray character.
    let tokens4 = vec![
        var("x"),
        t(TOKEN_TYPE::ASSIGN),
        lit("12x"),
        t(TOKEN_TYPE::SC),
        t(TOKEN_TYPE::EOF_TOK),
    ];
    assert!(matches!(gen_ast(&tokens4), Err(ParseError::IntegerParseError)));
}

#[test]
fn extreme_literals_parse_exactly() {
    // The most negative and most positive 32-bit values, and an explicit sign.
    let tokens = vec![
        var("a"),
        t(TOKEN_TYPE::ASSIGN),
        lit("-2147483648"),
        t(TOKEN_TYPE::SC),
        var("b"),
        t(TOKEN_TYPE::ASSIGN),
        lit("2147483647"),
        t(TOKEN_TYPE::SC),
        var("c"),
        t(TOKEN_TYPE::ASSIGN),
        lit("+5"),
        t(TOKEN_TYPE::SC),
        t(TOKEN_TYPE::EOF_TOK),
    ];
    let ast = gen_ast(&tokens).expect("parse failed");
    let expected = Program {
        program: Block {
            statements: vec![
                Statement::AssignStatement {
                    var: String::from("a"),
                    exp: Expression::Val(i32::MIN),
                },
                Statement::AssignStatement {
                    var: String::from("b"),
                    exp: Expression::Val(i32::MAX),
                },
                Statement::AssignStatement { var: String::from("c"), exp: Expression::Val(5) },
            ],
        },
    };
    assert_eq!(ast, expected);
}

#[test]
fn precedence_and_associativity_shape_the_tree() {
    // a = 1 + 2 * 3 - 4;  parses as  (1 + (2 * 3)) - 4
    let tokens = vec![
        var("a"),
        t(TOKEN_TYPE::ASSIGN),
        lit("1"),
        t(TOKEN_TYPE::PLUS),
        lit("2"),
        t(TOKEN_TYPE::ASTERIX),
        lit("3"),
        t(TOKEN_TYPE::MINUS),
        lit("4"),
        t(TOKEN_TYPE::SC),
        t(TOKEN_TYPE::EOF_TOK),
    ];
    let ast = gen_ast(&tokens).expect("parse failed");
    let expected = Program {
        program: Block {
            statements: vec![Statement::AssignStatement {
                var: String::from("a"),
                exp: Expression::BinOp(
                    Op::Sub,
                    Box::new(Expression::BinOp(
                        Op::Add,
                        Box::new(Expression::Val(1)),
                        Box::new(Expression::BinOp(
                            Op::Multiply,
                            Box::new(Expression::Val(2)),
                            Box::new(Expression::Val(3)),
                        )),
                    )),
                    Box::new(Expression::Val(4)),
                ),
            }],
        },
    };
    assert_eq!(ast, expected);
}
