//! Recursive-descent parser with precedence climbing.
//!
//! The parser consumes a token stream (a vector of tokens whose last
//! meaningful token is the end-marker `EOF_TOK`) and builds a `Program`, or
//! stops at the first syntax error.  Its intended meaning is given by the
//! spec-level parser (`sp_parse_prog`, `sp_parse_stmt`, `sp_rvallit` and the
//! functions between them); every executable parse function is proved to
//! return exactly what the spec-level parser says.
//!
//! Precedence, lowest to highest binding: `or` < `and` < equality < relational
//! < additive < multiplicative < literal.  All binary operators are
//! left-associative.  Expressions are not parenthesizable; parentheses occur
//! only around `if`/`repeat` conditions.

use vstd::prelude::*;

use crate::language::{
    elifs_view, lemma_elifs_view_push, lemma_stmts_view_push, stmts_view, Block, ExprModel,
    Expression, Op, Program, Statement, StmtModel,
};
use crate::lexer::{tokens_view, token, TokenModel, TOKEN_TYPE};

verus! {

/// A parse failure: the parser stops at the first one.
#[derive(Copy, Clone, Debug, PartialEq, Eq, Structural)]
pub enum ParseError {
    UnexpectedToken(TOKEN_TYPE),
    UnknownOperator(TOKEN_TYPE),
    FileNotFound,
    VariableParseError,
    IntegerParseError,
}

/// Whether the stream carries an end-marker token, as the token source
/// promises of every stream it produces.
pub open spec fn stream_ok(toks: Seq<TokenModel>) -> bool {
    exists|i: int| 0 <= i < toks.len() && toks[i].tok_type == TOKEN_TYPE::EOF_TOK
}

/// The position of the first end-marker token.
pub open spec fn first_eof(toks: Seq<TokenModel>) -> int
    decreases toks,
{
    if toks.len() == 0 {
        0
    } else if toks[0].tok_type == TOKEN_TYPE::EOF_TOK {
        0
    } else {
        1 + first_eof(toks.drop_first())
    }
}

/// On a stream with an end-marker, `first_eof` names the first one: it is in
/// range, it is an end-marker, and nothing before it is one.
pub proof fn lemma_first_eof(toks: Seq<TokenModel>)
    requires
        stream_ok(toks),
    ensures
        0 <= first_eof(toks) < toks.len(),
        toks[first_eof(toks)].tok_type == TOKEN_TYPE::EOF_TOK,
        forall|j: int| 0 <= j < first_eof(toks) ==> toks[j].tok_type != TOKEN_TYPE::EOF_TOK,
    decreases toks,
{
    if toks.len() == 0 {
    } else if toks[0].tok_type == TOKEN_TYPE::EOF_TOK {
    } else {
        let rest = toks.drop_first();
        let w = choose|i: int| 0 <= i < toks.len() && toks[i].tok_type == TOKEN_TYPE::EOF_TOK;
        assert(rest[w - 1] == toks[w]);
        assert(stream_ok(rest));
        lemma_first_eof(rest);
        assert forall|j: int| 0 <= j < first_eof(toks) implies toks[j].tok_type
            != TOKEN_TYPE::EOF_TOK by {
            if j > 0 {
                assert(toks[j] == rest[j - 1]);
            }
        }
    }
}

/// A parse position is valid while it has not passed the first end-marker.
pub open spec fn pos_ok(toks: Seq<TokenModel>, pos: int) -> bool {
    &&& stream_ok(toks)
    &&& 0 <= pos <= first_eof(toks)
}

/// A character is a decimal digit.
pub open spec fn is_digit(c: char) -> bool {
    48 <= c as u32 <= 57
}

/// Every character of the sequence is a decimal digit.
pub open spec fn all_digits(s: Seq<char>) -> bool {
    forall|i: int| 0 <= i < s.len() ==> is_digit(#[trigger] s[i])
}

/// The value of the first `n` characters read as decimal digits.
pub open spec fn digits_val(s: Seq<char>, n: int) -> int
    decreases n,
{
    if n <= 0 {
        0
    } else {
        digits_val(s, n - 1) * 10 + (s[n - 1] as u32 - 48)
    }
}

/// Digit values are nonnegative and never shrink as more digits are read.
pub proof fn lemma_digits_val_mono(s: Seq<char>, m: int, n: int)
    requires
        0 <= m <= n <= s.len(),
        forall|i: int| 0 <= i < n ==> is_digit(#[trigger] s[i]),
    ensures
        0 <= digits_val(s, m) <= digits_val(s, n),
    decreases n - m,
{
    if m < n {
        lemma_digits_val_mono(s, m, n - 1);
    } else {
        lemma_digits_val_nonneg(s, m);
    }
}

/// Digit values are nonnegative.
pub proof fn lemma_digits_val_nonneg(s: Seq<char>, n: int)
    requires
        n <= s.len(),
        forall|i: int| 0 <= i < n ==> is_digit(#[trigger] s[i]),
    ensures
        digits_val(s, n) >= 0,
    decreases n,
{
    if n > 0 {
        lemma_digits_val_nonneg(s, n - 1);
    }
}

/// What an integer literal's spelling denotes: an optional sign, then at
/// least one decimal digit, denoting a value in the 32-bit signed range;
/// `None` for any other spelling.
pub open spec fn sp_parse_i32(s: Seq<char>) -> Option<i32> {
    if s.len() > 0 && (s[0] == '-' || s[0] == '+') {
        let digits = s.drop_first();
        if digits.len() > 0 && all_digits(digits) {
            let mag = digits_val(digits, digits.len() as int);
            let v: int = if s[0] == '-' {
                -mag
            } else {
                mag
            };
            if i32::MIN <= v <= i32::MAX {
                Some(v as i32)
            } else {
                None
            }
        } else {
            None
        }
    } else if s.len() > 0 && all_digits(s) {
        let v = digits_val(s, s.len() as int);
        if v <= i32::MAX {
            Some(v as i32)
        } else {
            None
        }
    } else {
        None
    }
}

/// Reads an integer literal's spelling: an optional `+` or `-` sign followed
/// by decimal digits.  Yields `None` for an empty or malformed spelling and
/// for a value outside the 32-bit signed range.
#[verifier::loop_isolation(false)]
fn parse_i32(s: &str) -> (r: Option<i32>)
    ensures
        r == sp_parse_i32(s@),
{
    let len = s.unicode_len();
    if len == 0 {
        return None;
    }
    let first = s.get_char(0);
    let start: usize = if first == '-' || first == '+' {
        1
    } else {
        0
    };
    let neg = first == '-';
    if start == 1 && len == 1 {
        return None;
    }
    let ghost ds: Seq<char> = if start == 1 {
        s@.drop_first()
    } else {
        s@
    };
    proof {
        assert(ds.len() == len - start);
        assert(forall|j: int| 0 <= j < ds.len() ==> ds[j] == s@[j + start]);
    }
    let mut acc: u64 = 0;
    let mut i: usize = start;
    while i < len
        invariant
            start <= i <= len,
            acc <= 0x8000_0000u64,
            forall|j: int| 0 <= j < i - start ==> is_digit(#[trigger] ds[j]),
            acc == digits_val(ds, i - start),
        decreases len - i,
    {
        let c = s.get_char(i);
        let u = c as u32;
        if u < 48 || u > 57 {
            proof {
                assert(ds[i - start] == c);
                assert(!is_digit(c));
                assert(!all_digits(ds));
            }
            return None;
        }
        acc = acc * 10 + ((u - 48) as u64);
        proof {
            assert(acc == digits_val(ds, i + 1 - start));
        }
        if acc > 0x8000_0000u64 {
            proof {
                if all_digits(ds) {
                    lemma_digits_val_mono(ds, i + 1 - start, ds.len() as int);
                }
            }
            return None;
        }
        i = i + 1;
    }
    proof {
        assert(i - start == ds.len());
        assert(all_digits(ds));
        assert(acc == digits_val(ds, ds.len() as int));
    }
    if neg {
        let v: i64 = -(acc as i64);
        Some(v as i32)
    } else {
        if acc > 0x7FFF_FFFFu64 {
            return None;
        }
        Some(acc as i32)
    }
}

/// The operator denoted by an operator token; the unknown-operator error for
/// any other token kind.
pub open spec fn sp_token_to_op(tok: TOKEN_TYPE) -> Result<Op, ParseError> {
    match tok {
        TOKEN_TYPE::PLUS => Ok(Op::Add),
        TOKEN_TYPE::MINUS => Ok(Op::Sub),
        TOKEN_TYPE::ASTERIX => Ok(Op::Multiply),
        TOKEN_TYPE::DIV => Ok(Op::Divide),
        TOKEN_TYPE::MOD => Ok(Op::Remainder),
        TOKEN_TYPE::AND => Ok(Op::And),
        TOKEN_TYPE::OR => Ok(Op::Or),
        TOKEN_TYPE::EQ => Ok(Op::Equal),
        TOKEN_TYPE::NEQ => Ok(Op::NotEqual),
        TOKEN_TYPE::LE => Ok(Op::LessThanOrEqual),
        TOKEN_TYPE::LT => Ok(Op::LessThan),
        TOKEN_TYPE::GE => Ok(Op::GreaterThanOrEqual),
        TOKEN_TYPE::GT => Ok(Op::GreaterThan),
        _ => Err(ParseError::UnknownOperator(tok)),
    }
}

/// The operator denoted by an operator token.
pub fn token_to_op(tok: TOKEN_TYPE) -> (r: Result<Op, ParseError>)
    ensures
        r == sp_token_to_op(tok),
{
    match tok {
        TOKEN_TYPE::PLUS => Ok(Op::Add),
        TOKEN_TYPE::MINUS => Ok(Op::Sub),
        TOKEN_TYPE::ASTERIX => Ok(Op::Multiply),
        TOKEN_TYPE::DIV => Ok(Op::Divide),
        TOKEN_TYPE::MOD => Ok(Op::Remainder),
        TOKEN_TYPE::AND => Ok(Op::And),
        TOKEN_TYPE::OR => Ok(Op::Or),
        TOKEN_TYPE::EQ => Ok(Op::Equal),
        TOKEN_TYPE::NEQ => Ok(Op::NotEqual),
        TOKEN_TYPE::LE => Ok(Op::LessThanOrEqual),
        TOKEN_TYPE::LT => Ok(Op::LessThan),
        TOKEN_TYPE::GE => Ok(Op::GreaterThanOrEqual),
        TOKEN_TYPE::GT => Ok(Op::GreaterThan),
        _ => Err(ParseError::UnknownOperator(tok)),
    }
}

/// Checking a token against an expected kind: on a match the position moves
/// one token forward; on a mismatch the unexpected-token error reports the
/// actual kind.
pub open spec fn sp_consume(toks: Seq<TokenModel>, pos: int, expected: TOKEN_TYPE) -> Result<
    int,
    ParseError,
> {
    if pos < 0 || pos >= toks.len() {
        Err(ParseError::UnexpectedToken(TOKEN_TYPE::INVALID))
    } else if toks[pos].tok_type == expected {
        Ok(pos + 1)
    } else {
        Err(ParseError::UnexpectedToken(toks[pos].tok_type))
    }
}

/// An error value for parse positions that no sub-parser ever delivers
/// (each one stays within the token stream, as its bounds clause shows);
/// the spec-level parser returns it where its termination measure would
/// otherwise be unfounded.
pub open spec fn sp_stray() -> Result<(ExprModel, int), ParseError> {
    Err(ParseError::UnexpectedToken(TOKEN_TYPE::INVALID))
}

/// Parsing a literal expression: an identifier denotes a variable reference
/// (a missing spelling is a malformed name); an integer literal denotes its
/// value (a missing or malformed spelling, or one outside the 32-bit range,
/// is a malformed literal); any other token is unexpected.
#[verifier::opaque]
pub open spec fn sp_rvallit(toks: Seq<TokenModel>, pos: int) -> Result<(ExprModel, int), ParseError>
    decreases toks.len() - pos, 0int,
{
    if pos < 0 || pos >= toks.len() {
        sp_stray()
    } else {
        let t = toks[pos];
        match t.tok_type {
            TOKEN_TYPE::VAR => match t.val {
                Some(name) => Ok((ExprModel::Var(name), pos + 1)),
                None => Err(ParseError::VariableParseError),
            },
            TOKEN_TYPE::INT_LIT => match t.val {
                Some(text) => match sp_parse_i32(text) {
                    Some(n) => Ok((ExprModel::Val(n), pos + 1)),
                    None => Err(ParseError::IntegerParseError),
                },
                None => Err(ParseError::IntegerParseError),
            },
            _ => Err(ParseError::UnexpectedToken(t.tok_type)),
        }
    }
}

/// The multiplicative level's operator loop: extends `lhs` left-associatively
/// while the current token is `*`, `/` or `%`; stops on a token of a lower
/// precedence level or of the follow set; any other token is unexpected.
#[verifier::opaque]
pub open spec fn sp_rvalmult_p(toks: Seq<TokenModel>, pos: int, lhs: ExprModel) -> Result<
    (ExprModel, int),
    ParseError,
>
    decreases toks.len() - pos, 0int,
{
    if pos < 0 || pos >= toks.len() {
        sp_stray()
    } else {
        let tt = toks[pos].tok_type;
        match tt {
            TOKEN_TYPE::ASTERIX | TOKEN_TYPE::DIV | TOKEN_TYPE::MOD => match sp_consume(
                toks,
                pos,
                tt,
            ) {
                Err(e) => Err(e),
                Ok(p1) => match sp_rvallit(toks, p1) {
                    Err(e) => Err(e),
                    Ok((rhs, p2)) => match sp_token_to_op(tt) {
                        Err(e) => Err(e),
                        Ok(op) => if pos < p2 <= toks.len() {
                            sp_rvalmult_p(
                                toks,
                                p2,
                                ExprModel::BinOp(op, Box::new(lhs), Box::new(rhs)),
                            )
                        } else {
                            sp_stray()
                        },
                    },
                },
            },
            TOKEN_TYPE::PLUS | TOKEN_TYPE::MINUS | TOKEN_TYPE::LE | TOKEN_TYPE::LT
                | TOKEN_TYPE::GE | TOKEN_TYPE::GT | TOKEN_TYPE::EQ | TOKEN_TYPE::NEQ
                | TOKEN_TYPE::AND | TOKEN_TYPE::OR | TOKEN_TYPE::SC | TOKEN_TYPE::RPAR => Ok(
                (lhs, pos),
            ),
            _ => Err(ParseError::UnexpectedToken(tt)),
        }
    }
}

/// Parsing at the multiplicative level: a literal operand, then the operator
/// loop.
#[verifier::opaque]
pub open spec fn sp_rvalmult(toks: Seq<TokenModel>, pos: int) -> Result<(ExprModel, int), ParseError>
    decreases toks.len() - pos, 1int,
{
    match sp_rvallit(toks, pos) {
        Err(e) => Err(e),
        Ok((lhs, p1)) => if pos < p1 <= toks.len() {
            sp_rvalmult_p(toks, p1, lhs)
        } else {
            sp_stray()
        },
    }
}

/// The additive level's operator loop: `+` and `-`.
#[verifier::opaque]
pub open spec fn sp_rvaladd_p(toks: Seq<TokenModel>, pos: int, lhs: ExprModel) -> Result<
    (ExprModel, int),
    ParseError,
>
    decreases toks.len() - pos, 0int,
{
    if pos < 0 || pos >= toks.len() {
        sp_stray()
    } else {
        let tt = toks[pos].tok_type;
        match tt {
            TOKEN_TYPE::PLUS | TOKEN_TYPE::MINUS => match sp_consume(toks, pos, tt) {
                Err(e) => Err(e),
                Ok(p1) => match sp_rvalmult(toks, p1) {
                    Err(e) => Err(e),
                    Ok((rhs, p2)) => match sp_token_to_op(tt) {
                        Err(e) => Err(e),
                        Ok(op) => if pos < p2 <= toks.len() {
                            sp_rvaladd_p(
                                toks,
                                p2,
                                ExprModel::BinOp(op, Box::new(lhs), Box::new(rhs)),
                            )
                        } else {
                            sp_stray()
                        },
                    },
                },
            },
            TOKEN_TYPE::LE | TOKEN_TYPE::LT | TOKEN_TYPE::GE | TOKEN_TYPE::GT | TOKEN_TYPE::EQ
                | TOKEN_TYPE::NEQ | TOKEN_TYPE::AND | TOKEN_TYPE::OR | TOKEN_TYPE::SC
                | TOKEN_TYPE::RPAR => Ok((lhs, pos)),
            _ => Err(ParseError::UnexpectedToken(tt)),
        }
    }
}

/// Parsing at the additive level.
#[verifier::opaque]
pub open spec fn sp_rvaladd(toks: Seq<TokenModel>, pos: int) -> Result<(ExprModel, int), ParseError>
    decreases toks.len() - pos, 2int,
{
    match sp_rvalmult(toks, pos) {
        Err(e) => Err(e),
        Ok((lhs, p1)) => if pos < p1 <= toks.len() {
            sp_rvaladd_p(toks, p1, lhs)
        } else {
            sp_stray()
        },
    }
}

/// The relational level's operator loop: `<=`, `<`, `>=`, `>`.
#[verifier::opaque]
pub open spec fn sp_rvalcomp_p(toks: Seq<TokenModel>, pos: int, lhs: ExprModel) -> Result<
    (ExprModel, int),
    ParseError,
>
    decreases toks.len() - pos, 0int,
{
    if pos < 0 || pos >= toks.len() {
        sp_stray()
    } else {
        let tt = toks[pos].tok_type;
        match tt {
            TOKEN_TYPE::LE | TOKEN_TYPE::LT | TOKEN_TYPE::GE | TOKEN_TYPE::GT => match sp_consume(
                toks,
                pos,
                tt,
            ) {
                Err(e) => Err(e),
                Ok(p1) => match sp_rvaladd(toks, p1) {
                    Err(e) => Err(e),
                    Ok((rhs, p2)) => match sp_token_to_op(tt) {
                        Err(e) => Err(e),
                        Ok(op) => if pos < p2 <= toks.len() {
                            sp_rvalcomp_p(
                                toks,
                                p2,
                                ExprModel::BinOp(op, Box::new(lhs), Box::new(rhs)),
                            )
                        } else {
                            sp_stray()
                        },
                    },
                },
            },
            TOKEN_TYPE::EQ | TOKEN_TYPE::NEQ | TOKEN_TYPE::AND | TOKEN_TYPE::OR | TOKEN_TYPE::SC
                | TOKEN_TYPE::RPAR => Ok((lhs, pos)),
            _ => Err(ParseError::UnexpectedToken(tt)),
        }
    }
}

/// Parsing at the relational level.
#[verifier::opaque]
pub open spec fn sp_rvalcomp(toks: Seq<TokenModel>, pos: int) -> Result<(ExprModel, int), ParseError>
    decreases toks.len() - pos, 3int,
{
    match sp_rvaladd(toks, pos) {
        Err(e) => Err(e),
        Ok((lhs, p1)) => if pos < p1 <= toks.len() {
            sp_rvalcomp_p(toks, p1, lhs)
        } else {
            sp_stray()
        },
    }
}

/// The equality level's operator loop: `==` and `!=`.
#[verifier::opaque]
pub open spec fn sp_rvaleq_p(toks: Seq<TokenModel>, pos: int, lhs: ExprModel) -> Result<
    (ExprModel, int),
    ParseError,
>
    decreases toks.len() - pos, 0int,
{
    if pos < 0 || pos >= toks.len() {
        sp_stray()
    } else {
        let tt = toks[pos].tok_type;
        match tt {
            TOKEN_TYPE::EQ | TOKEN_TYPE::NEQ => match sp_consume(toks, pos, tt) {
                Err(e) => Err(e),
                Ok(p1) => match sp_rvalcomp(toks, p1) {
                    Err(e) => Err(e),
                    Ok((rhs, p2)) => match sp_token_to_op(tt) {
                        Err(e) => Err(e),
                        Ok(op) => if pos < p2 <= toks.len() {
                            sp_rvaleq_p(
                                toks,
                                p2,
                                ExprModel::BinOp(op, Box::new(lhs), Box::new(rhs)),
                            )
                        } else {
                            sp_stray()
                        },
                    },
                },
            },
            TOKEN_TYPE::AND | TOKEN_TYPE::OR | TOKEN_TYPE::SC | TOKEN_TYPE::RPAR => Ok(
                (lhs, pos),
            ),
            _ => Err(ParseError::UnexpectedToken(tt)),
        }
    }
}

/// Parsing at the equality level.
#[verifier::opaque]
pub open spec fn sp_rvaleq(toks: Seq<TokenModel>, pos: int) -> Result<(ExprModel, int), ParseError>
    decreases toks.len() - pos, 4int,
{
    match sp_rvalcomp(toks, pos) {
        Err(e) => Err(e),
        Ok((lhs, p1)) => if pos < p1 <= toks.len() {
            sp_rvaleq_p(toks, p1, lhs)
        } else {
            sp_stray()
        },
    }
}

/// The `and` level's operator loop.
#[verifier::opaque]
pub open spec fn sp_rvaland_p(toks: Seq<TokenModel>, pos: int, lhs: ExprModel) -> Result<
    (ExprModel, int),
    ParseError,
>
    decreases toks.len() - pos, 0int,
{
    if pos < 0 || pos >= toks.len() {
        sp_stray()
    } else {
        let tt = toks[pos].tok_type;
        match tt {
            TOKEN_TYPE::AND => match sp_consume(toks, pos, tt) {
                Err(e) => Err(e),
                Ok(p1) => match sp_rvaleq(toks, p1) {
                    Err(e) => Err(e),
                    Ok((rhs, p2)) => match sp_token_to_op(tt) {
                        Err(e) => Err(e),
                        Ok(op) => if pos < p2 <= toks.len() {
                            sp_rvaland_p(
                                toks,
                                p2,
                                ExprModel::BinOp(op, Box::new(lhs), Box::new(rhs)),
                            )
                        } else {
                            sp_stray()
                        },
                    },
                },
            },
            TOKEN_TYPE::OR | TOKEN_TYPE::SC | TOKEN_TYPE::RPAR => Ok((lhs, pos)),
            _ => Err(ParseError::UnexpectedToken(tt)),
        }
    }
}

/// Parsing at the `and` level.
#[verifier::opaque]
pub open spec fn sp_rvaland(toks: Seq<TokenModel>, pos: int) -> Result<(ExprModel, int), ParseError>
    decreases toks.len() - pos, 5int,
{
    match sp_rvaleq(toks, pos) {
        Err(e) => Err(e),
        Ok((lhs, p1)) => if pos < p1 <= toks.len() {
            sp_rvaland_p(toks, p1, lhs)
        } else {
            sp_stray()
        },
    }
}

/// The `or` level's operator loop, the lowest-binding level: stops exactly on
/// `;` or `)`, the two tokens that may follow a whole expression.
#[verifier::opaque]
pub open spec fn sp_rvalor(toks: Seq<TokenModel>, pos: int, lhs: ExprModel) -> Result<
    (ExprModel, int),
    ParseError,
>
    decreases toks.len() - pos, 0int,
{
    if pos < 0 || pos >= toks.len() {
        sp_stray()
    } else {
        let tt = toks[pos].tok_type;
        match tt {
            TOKEN_TYPE::OR => match sp_consume(toks, pos, tt) {
                Err(e) => Err(e),
                Ok(p1) => match sp_rvaland(toks, p1) {
                    Err(e) => Err(e),
                    Ok((rhs, p2)) => match sp_token_to_op(tt) {
                        Err(e) => Err(e),
                        Ok(op) => if pos < p2 <= toks.len() {
                            sp_rvalor(
                                toks,
                                p2,
                                ExprModel::BinOp(op, Box::new(lhs), Box::new(rhs)),
                            )
                        } else {
                            sp_stray()
                        },
                    },
                },
            },
            TOKEN_TYPE::SC | TOKEN_TYPE::RPAR => Ok((lhs, pos)),
            _ => Err(ParseError::UnexpectedToken(tt)),
        }
    }
}

/// Parsing a whole expression: the `and` level, then the `or` operator loop.
#[verifier::opaque]
pub open spec fn sp_parse_expression(toks: Seq<TokenModel>, pos: int) -> Result<
    (ExprModel, int),
    ParseError,
>
    decreases toks.len() - pos, 6int,
{
    match sp_rvaland(toks, pos) {
        Err(e) => Err(e),
        Ok((lhs, p1)) => if pos < p1 <= toks.len() {
            sp_rvalor(toks, p1, lhs)
        } else {
            sp_stray()
        },
    }
}

/// Parsing an assignment statement: `identifier = expression ;`.  The token
/// after `=` must open an expression (an identifier or an integer literal);
/// an identifier token without a spelling is a malformed name.
#[verifier::opaque]
pub open spec fn sp_parse_assign(toks: Seq<TokenModel>, pos: int) -> Result<
    (StmtModel, int),
    ParseError,
>
    decreases toks.len() - pos, 7int,
{
    if pos < 0 || pos >= toks.len() {
        Err(ParseError::UnexpectedToken(TOKEN_TYPE::INVALID))
    } else if toks[pos].tok_type != TOKEN_TYPE::VAR {
        Err(ParseError::UnexpectedToken(toks[pos].tok_type))
    } else {
        match toks[pos].val {
            None => Err(ParseError::VariableParseError),
            Some(name) => match sp_consume(toks, pos + 1, TOKEN_TYPE::ASSIGN) {
                Err(e) => Err(e),
                Ok(p2) => if p2 >= toks.len() {
                    Err(ParseError::UnexpectedToken(TOKEN_TYPE::INVALID))
                } else if toks[p2].tok_type != TOKEN_TYPE::VAR && toks[p2].tok_type
                    != TOKEN_TYPE::INT_LIT {
                    Err(ParseError::UnexpectedToken(toks[p2].tok_type))
                } else {
                    match sp_parse_expression(toks, p2) {
                        Err(e) => Err(e),
                        Ok((exp, p3)) => match sp_consume(toks, p3, TOKEN_TYPE::SC) {
                            Err(e) => Err(e),
                            Ok(p4) => Ok((StmtModel::Assign { var: name, exp }, p4)),
                        },
                    }
                },
            },
        }
    }
}

/// Parsing an output statement: `output expression ;`.
#[verifier::opaque]
pub open spec fn sp_parse_output(toks: Seq<TokenModel>, pos: int) -> Result<
    (StmtModel, int),
    ParseError,
>
    decreases toks.len() - pos, 7int,
{
    match sp_consume(toks, pos, TOKEN_TYPE::OUTPUT) {
        Err(e) => Err(e),
        Ok(p1) => match sp_parse_expression(toks, p1) {
            Err(e) => Err(e),
            Ok((exp, p2)) => match sp_consume(toks, p2, TOKEN_TYPE::SC) {
                Err(e) => Err(e),
                Ok(p3) => Ok((StmtModel::Output { to_output: exp }, p3)),
            },
        },
    }
}

/// Parsing a repeat statement: `repeat ( expression ) { block }`.
#[verifier::opaque]
pub open spec fn sp_parse_repeat(toks: Seq<TokenModel>, pos: int) -> Result<
    (StmtModel, int),
    ParseError,
>
    decreases toks.len() - pos, 7int,
{
    match sp_consume(toks, pos, TOKEN_TYPE::REPEAT) {
        Err(e) => Err(e),
        Ok(p1) => match sp_consume(toks, p1, TOKEN_TYPE::LPAR) {
            Err(e) => Err(e),
            Ok(p2) => match sp_parse_expression(toks, p2) {
                Err(e) => Err(e),
                Ok((times, p3)) => match sp_consume(toks, p3, TOKEN_TYPE::RPAR) {
                    Err(e) => Err(e),
                    Ok(p4) => match sp_consume(toks, p4, TOKEN_TYPE::LBRA) {
                        Err(e) => Err(e),
                        Ok(p5) => if pos < p5 {
                            match sp_parse_block(toks, p5) {
                                Err(e) => Err(e),
                                Ok((body, p6)) => match sp_consume(toks, p6, TOKEN_TYPE::RBRA) {
                                    Err(e) => Err(e),
                                    Ok(p7) => Ok((StmtModel::Repeat { times, body }, p7)),
                                },
                            }
                        } else {
                            Err(ParseError::UnexpectedToken(TOKEN_TYPE::INVALID))
                        },
                    },
                },
            },
        },
    }
}

/// Parsing the `elseif` chain of an `if` statement: zero or more
/// `elseif ( expression ) { block }` branches, in source order.
#[verifier::opaque]
pub open spec fn sp_parse_elifs(toks: Seq<TokenModel>, pos: int) -> Result<
    (Seq<(ExprModel, Seq<StmtModel>)>, int),
    ParseError,
>
    decreases toks.len() - pos, 7int,
{
    if pos < 0 || pos >= toks.len() {
        Err(ParseError::UnexpectedToken(TOKEN_TYPE::INVALID))
    } else if toks[pos].tok_type != TOKEN_TYPE::ELSEIF {
        Ok((Seq::empty(), pos))
    } else {
        match sp_consume(toks, pos, TOKEN_TYPE::ELSEIF) {
            Err(e) => Err(e),
            Ok(p1) => match sp_consume(toks, p1, TOKEN_TYPE::LPAR) {
                Err(e) => Err(e),
                Ok(p2) => match sp_parse_expression(toks, p2) {
                    Err(e) => Err(e),
                    Ok((cond, p3)) => match sp_consume(toks, p3, TOKEN_TYPE::RPAR) {
                        Err(e) => Err(e),
                        Ok(p4) => match sp_consume(toks, p4, TOKEN_TYPE::LBRA) {
                            Err(e) => Err(e),
                            Ok(p5) => if pos < p5 {
                                match sp_parse_block(toks, p5) {
                                    Err(e) => Err(e),
                                    Ok((body, p6)) => match sp_consume(
                                        toks,
                                        p6,
                                        TOKEN_TYPE::RBRA,
                                    ) {
                                        Err(e) => Err(e),
                                        Ok(p7) => if pos < p7 {
                                            match sp_parse_elifs(toks, p7) {
                                                Err(e) => Err(e),
                                                Ok((rest, p8)) => Ok(
                                                    (seq![(cond, body)] + rest, p8),
                                                ),
                                            }
                                        } else {
                                            Err(ParseError::UnexpectedToken(TOKEN_TYPE::INVALID))
                                        },
                                    },
                                }
                            } else {
                                Err(ParseError::UnexpectedToken(TOKEN_TYPE::INVALID))
                            },
                        },
                    },
                },
            },
        }
    }
}

/// Parsing an if statement:
/// `if ( expression ) { block } (elseif ( expression ) { block })* (else { block })?`;
/// an absent `else` branch denotes an empty else-body.
#[verifier::opaque]
pub open spec fn sp_parse_if(toks: Seq<TokenModel>, pos: int) -> Result<(StmtModel, int), ParseError>
    decreases toks.len() - pos, 8int,
{
    match sp_consume(toks, pos, TOKEN_TYPE::IF) {
        Err(e) => Err(e),
        Ok(p1) => match sp_consume(toks, p1, TOKEN_TYPE::LPAR) {
            Err(e) => Err(e),
            Ok(p2) => match sp_parse_expression(toks, p2) {
                Err(e) => Err(e),
                Ok((condition, p3)) => match sp_consume(toks, p3, TOKEN_TYPE::RPAR) {
                    Err(e) => Err(e),
                    Ok(p4) => match sp_consume(toks, p4, TOKEN_TYPE::LBRA) {
                        Err(e) => Err(e),
                        Ok(p5) => if pos < p5 {
                            match sp_parse_block(toks, p5) {
                                Err(e) => Err(e),
                                Ok((body, p6)) => match sp_consume(toks, p6, TOKEN_TYPE::RBRA) {
                                    Err(e) => Err(e),
                                    Ok(p7) => if pos < p7 {
                                        match sp_parse_elifs(toks, p7) {
                                            Err(e) => Err(e),
                                            Ok((else_if, p8)) => sp_parse_if_else(
                                                toks,
                                                pos,
                                                condition,
                                                body,
                                                else_if,
                                                p8,
                                            ),
                                        }
                                    } else {
                                        Err(ParseError::UnexpectedToken(TOKEN_TYPE::INVALID))
                                    },
                                },
                            }
                        } else {
                            Err(ParseError::UnexpectedToken(TOKEN_TYPE::INVALID))
                        },
                    },
                },
            },
        },
    }
}

/// Parsing the optional `else { block }` tail of an `if` statement.
#[verifier::opaque]
pub open spec fn sp_parse_if_else(
    toks: Seq<TokenModel>,
    pos: int,
    condition: ExprModel,
    body: Seq<StmtModel>,
    else_if: Seq<(ExprModel, Seq<StmtModel>)>,
    p8: int,
) -> Result<(StmtModel, int), ParseError>
    decreases toks.len() - pos, 7int,
{
    if p8 < 0 || p8 >= toks.len() {
        Err(ParseError::UnexpectedToken(TOKEN_TYPE::INVALID))
    } else if toks[p8].tok_type == TOKEN_TYPE::ELSE {
        match sp_consume(toks, p8, TOKEN_TYPE::ELSE) {
            Err(e) => Err(e),
            Ok(p9) => match sp_consume(toks, p9, TOKEN_TYPE::LBRA) {
                Err(e) => Err(e),
                Ok(p10) => if pos < p10 {
                    match sp_parse_block(toks, p10) {
                        Err(e) => Err(e),
                        Ok((else_body, p11)) => match sp_consume(toks, p11, TOKEN_TYPE::RBRA) {
                            Err(e) => Err(e),
                            Ok(p12) => Ok(
                                (StmtModel::If { condition, body, else_if, else_body }, p12),
                            ),
                        },
                    }
                } else {
                    Err(ParseError::UnexpectedToken(TOKEN_TYPE::INVALID))
                },
            },
        }
    } else {
        Ok((StmtModel::If { condition, body, else_if, else_body: Seq::empty() }, p8))
    }
}

/// Parsing one statement, recognized by its leading token: an identifier
/// opens an assignment, the `if`, `repeat` and `output` keywords open their
/// statements, and any other token is unexpected.
#[verifier::opaque]
pub open spec fn sp_parse_stmt(toks: Seq<TokenModel>, pos: int) -> Result<
    (StmtModel, int),
    ParseError,
>
    decreases toks.len() - pos, 9int,
{
    if pos < 0 || pos >= toks.len() {
        Err(ParseError::UnexpectedToken(TOKEN_TYPE::INVALID))
    } else {
        match toks[pos].tok_type {
            TOKEN_TYPE::VAR => sp_parse_assign(toks, pos),
            TOKEN_TYPE::IF => sp_parse_if(toks, pos),
            TOKEN_TYPE::REPEAT => sp_parse_repeat(toks, pos),
            TOKEN_TYPE::OUTPUT => sp_parse_output(toks, pos),
            tt => Err(ParseError::UnexpectedToken(tt)),
        }
    }
}

/// Parsing a block body: statements until the closing brace, which is left
/// unconsumed for the surrounding construct.
#[verifier::opaque]
pub open spec fn sp_parse_block(toks: Seq<TokenModel>, pos: int) -> Result<
    (Seq<StmtModel>, int),
    ParseError,
>
    decreases toks.len() - pos, 10int,
{
    if pos < 0 || pos >= toks.len() {
        Err(ParseError::UnexpectedToken(TOKEN_TYPE::INVALID))
    } else if toks[pos].tok_type == TOKEN_TYPE::RBRA {
        Ok((Seq::empty(), pos))
    } else {
        match sp_parse_stmt(toks, pos) {
            Err(e) => Err(e),
            Ok((sv, p1)) => if pos < p1 <= toks.len() {
                match sp_parse_block(toks, p1) {
                    Err(e) => Err(e),
                    Ok((rest, p2)) => Ok((seq![sv] + rest, p2)),
                }
            } else {
                Err(ParseError::UnexpectedToken(TOKEN_TYPE::INVALID))
            },
        }
    }
}

/// Parsing a whole program: statements until the end-marker, which is
/// examined but never passed.
#[verifier::opaque]
pub open spec fn sp_parse_prog(toks: Seq<TokenModel>, pos: int) -> Result<
    (Seq<StmtModel>, int),
    ParseError,
>
    decreases toks.len() - pos, 11int,
{
    if pos < 0 || pos >= toks.len() {
        Err(ParseError::UnexpectedToken(TOKEN_TYPE::INVALID))
    } else if toks[pos].tok_type == TOKEN_TYPE::EOF_TOK {
        Ok((Seq::empty(), pos))
    } else {
        match sp_parse_stmt(toks, pos) {
            Err(e) => Err(e),
            Ok((sv, p1)) => if pos < p1 <= toks.len() {
                match sp_parse_prog(toks, p1) {
                    Err(e) => Err(e),
                    Ok((rest, p2)) => Ok((seq![sv] + rest, p2)),
                }
            } else {
                Err(ParseError::UnexpectedToken(TOKEN_TYPE::INVALID))
            },
        }
    }
}

/// What parsing a whole token stream yields: the model of the program, or
/// the first syntax error.
#[verifier::opaque]
pub open spec fn sp_gen_ast(toks: Seq<TokenModel>) -> Result<Seq<StmtModel>, ParseError> {
    match sp_parse_prog(toks, 0) {
        Err(e) => Err(e),
        Ok((ss, p)) => Ok(ss),
    }
}

/// Checks that the current token has the expected kind and steps past it.
fn consume_token(tokens: &Vec<token>, pos: usize, expected: TOKEN_TYPE) -> (r: Result<
    usize,
    ParseError,
>)
    requires
        pos_ok(tokens_view(tokens@), pos as int),
        expected != TOKEN_TYPE::EOF_TOK,
    ensures
        match r {
            Ok(p) => sp_consume(tokens_view(tokens@), pos as int, expected) == Ok::<
                int,
                ParseError,
            >(p as int) && pos < p <= first_eof(tokens_view(tokens@)),
            Err(err) => sp_consume(tokens_view(tokens@), pos as int, expected) == Err::<
                int,
                ParseError,
            >(err),
        },
{
    proof {
        lemma_first_eof(tokens_view(tokens@));
        assert(tokens_view(tokens@).len() == tokens@.len());
        assert(tokens_view(tokens@)[pos as int] == tokens@[pos as int]@);
    }
    let n = tokens.len();
    assert(pos < n);
    if tokens[pos].tok_type == expected {
        Ok(pos + 1)
    } else {
        Err(ParseError::UnexpectedToken(tokens[pos].tok_type))
    }
}

/// Parses a literal expression: a variable reference or an integer literal.
fn rvallit(tokens: &Vec<token>, pos: usize) -> (r: Result<(Expression, usize), ParseError>)
    requires
        pos_ok(tokens_view(tokens@), pos as int),
    ensures
        match r {
            Ok((e, p)) => sp_rvallit(tokens_view(tokens@), pos as int) == Ok::<
                (ExprModel, int),
                ParseError,
            >((e@, p as int)) && pos < p <= first_eof(tokens_view(tokens@)),
            Err(err) => sp_rvallit(tokens_view(tokens@), pos as int) == Err::<
                (ExprModel, int),
                ParseError,
            >(err),
        },
{
    reveal(sp_rvallit);
    proof {
        lemma_first_eof(tokens_view(tokens@));
        assert(tokens_view(tokens@).len() == tokens@.len());
        assert(tokens_view(tokens@)[pos as int] == tokens@[pos as int]@);
    }
    let n = tokens.len();
    assert(pos < n);
    let t = &tokens[pos];
    match t.tok_type {
        TOKEN_TYPE::VAR => match &t.val {
            Some(s) => Ok((Expression::Var(s.clone()), pos + 1)),
            None => Err(ParseError::VariableParseError),
        },
        TOKEN_TYPE::INT_LIT => match &t.val {
            Some(text) => match parse_i32(text.as_str()) {
                Some(v) => Ok((Expression::Val(v), pos + 1)),
                None => Err(ParseError::IntegerParseError),
            },
            None => Err(ParseError::IntegerParseError),
        },
        _ => Err(ParseError::UnexpectedToken(t.tok_type)),
    }
}

/// The multiplicative level's operator loop.
fn rvalmult_p(tokens: &Vec<token>, pos: usize, lhs: Expression) -> (r: Result<
    (Expression, usize),
    ParseError,
>)
    requires
        pos_ok(tokens_view(tokens@), pos as int),
    ensures
        match r {
            Ok((e, p)) => sp_rvalmult_p(tokens_view(tokens@), pos as int, lhs@) == Ok::<
                (ExprModel, int),
                ParseError,
            >((e@, p as int)) && pos <= p <= first_eof(tokens_view(tokens@)),
            Err(err) => sp_rvalmult_p(tokens_view(tokens@), pos as int, lhs@) == Err::<
                (ExprModel, int),
                ParseError,
            >(err),
        },
    decreases tokens@.len() - pos,
{
    reveal_with_fuel(sp_rvalmult_p, 2);
    proof {
        lemma_first_eof(tokens_view(tokens@));
        assert(tokens_view(tokens@).len() == tokens@.len());
        assert(tokens_view(tokens@)[pos as int] == tokens@[pos as int]@);
    }
    let n = tokens.len();
    assert(pos < n);
    let tt = tokens[pos].tok_type;
    match tt {
        TOKEN_TYPE::ASTERIX | TOKEN_TYPE::DIV | TOKEN_TYPE::MOD => {
            let p1 = match consume_token(tokens, pos, tt) {
                Ok(p) => p,
                Err(err) => return Err(err),
            };
            let (rhs, p2) = match rvallit(tokens, p1) {
                Ok(v) => v,
                Err(err) => return Err(err),
            };
            let op = match token_to_op(tt) {
                Ok(o) => o,
                Err(err) => return Err(err),
            };
            rvalmult_p(tokens, p2, Expression::BinOp(op, Box::new(lhs), Box::new(rhs)))
        },
        TOKEN_TYPE::PLUS | TOKEN_TYPE::MINUS | TOKEN_TYPE::LE | TOKEN_TYPE::LT | TOKEN_TYPE::GE
            | TOKEN_TYPE::GT | TOKEN_TYPE::EQ | TOKEN_TYPE::NEQ | TOKEN_TYPE::AND
            | TOKEN_TYPE::OR | TOKEN_TYPE::SC | TOKEN_TYPE::RPAR => Ok((lhs, pos)),
        _ => Err(ParseError::UnexpectedToken(tt)),
    }
}

/// Parses at the multiplicative level.
fn rvalmult(tokens: &Vec<token>, pos: usize) -> (r: Result<(Expression, usize), ParseError>)
    requires
        pos_ok(tokens_view(tokens@), pos as int),
    ensures
        match r {
            Ok((e, p)) => sp_rvalmult(tokens_view(tokens@), pos as int) == Ok::<
                (ExprModel, int),
                ParseError,
            >((e@, p as int)) && pos < p <= first_eof(tokens_view(tokens@)),
            Err(err) => sp_rvalmult(tokens_view(tokens@), pos as int) == Err::<
                (ExprModel, int),
                ParseError,
            >(err),
        },
{
    reveal(sp_rvalmult);
    proof {
        lemma_first_eof(tokens_view(tokens@));
        assert(tokens_view(tokens@).len() == tokens@.len());
    }
    let (lhs, p1) = match rvallit(tokens, pos) {
        Ok(v) => v,
        Err(err) => return Err(err),
    };
    rvalmult_p(tokens, p1, lhs)
}

/// The additive level's operator loop.
fn rvaladd_p(tokens: &Vec<token>, pos: usize, lhs: Expression) -> (r: Result<
    (Expression, usize),
    ParseError,
>)
    requires
        pos_ok(tokens_view(tokens@), pos as int),
    ensures
        match r {
            Ok((e, p)) => sp_rvaladd_p(tokens_view(tokens@), pos as int, lhs@) == Ok::<
                (ExprModel, int),
                ParseError,
            >((e@, p as int)) && pos <= p <= first_eof(tokens_view(tokens@)),
            Err(err) => sp_rvaladd_p(tokens_view(tokens@), pos as int, lhs@) == Err::<
                (ExprModel, int),
                ParseError,
            >(err),
        },
    decreases tokens@.len() - pos,
{
    reveal_with_fuel(sp_rvaladd_p, 2);
    proof {
        lemma_first_eof(tokens_view(tokens@));
        assert(tokens_view(tokens@).len() == tokens@.len());
        assert(tokens_view(tokens@)[pos as int] == tokens@[pos as int]@);
    }
    let n = tokens.len();
    assert(pos < n);
    let tt = tokens[pos].tok_type;
    match tt {
        TOKEN_TYPE::PLUS | TOKEN_TYPE::MINUS => {
            let p1 = match consume_token(tokens, pos, tt) {
                Ok(p) => p,
                Err(err) => return Err(err),
            };
            let (rhs, p2) = match rvalmult(tokens, p1) {
                Ok(v) => v,
                Err(err) => return Err(err),
            };
            let op = match token_to_op(tt) {
                Ok(o) => o,
                Err(err) => return Err(err),
            };
            rvaladd_p(tokens, p2, Expression::BinOp(op, Box::new(lhs), Box::new(rhs)))
        },
        TOKEN_TYPE::LE | TOKEN_TYPE::LT | TOKEN_TYPE::GE | TOKEN_TYPE::GT | TOKEN_TYPE::EQ
            | TOKEN_TYPE::NEQ | TOKEN_TYPE::AND | TOKEN_TYPE::OR | TOKEN_TYPE::SC
            | TOKEN_TYPE::RPAR => Ok((lhs, pos)),
        _ => Err(ParseError::UnexpectedToken(tt)),
    }
}

/// Parses at the additive level.
fn rvaladd(tokens: &Vec<token>, pos: usize) -> (r: Result<(Expression, usize), ParseError>)
    requires
        pos_ok(tokens_view(tokens@), pos as int),
    ensures
        match r {
            Ok((e, p)) => sp_rvaladd(tokens_view(tokens@), pos as int) == Ok::<
                (ExprModel, int),
                ParseError,
            >((e@, p as int)) && pos < p <= first_eof(tokens_view(tokens@)),
            Err(err) => sp_rvaladd(tokens_view(tokens@), pos as int) == Err::<
                (ExprModel, int),
                ParseError,
            >(err),
        },
{
    reveal(sp_rvaladd);
    proof {
        lemma_first_eof(tokens_view(tokens@));
        assert(tokens_view(tokens@).len() == tokens@.len());
    }
    let (lhs, p1) = match rvalmult(tokens, pos) {
        Ok(v) => v,
        Err(err) => return Err(err),
    };
    rvaladd_p(tokens, p1, lhs)
}

/// The relational level's operator loop.
fn rvalcomp_p(tokens: &Vec<token>, pos: usize, lhs: Expression) -> (r: Result<
    (Expression, usize),
    ParseError,
>)
    requires
        pos_ok(tokens_view(tokens@), pos as int),
    ensures
        match r {
            Ok((e, p)) => sp_rvalcomp_p(tokens_view(tokens@), pos as int, lhs@) == Ok::<
                (ExprModel, int),
                ParseError,
            >((e@, p as int)) && pos <= p <= first_eof(tokens_view(tokens@)),
            Err(err) => sp_rvalcomp_p(tokens_view(tokens@), pos as int, lhs@) == Err::<
                (ExprModel, int),
                ParseError,
            >(err),
        },
    decreases tokens@.len() - pos,
{
    reveal_with_fuel(sp_rvalcomp_p, 2);
    proof {
        lemma_first_eof(tokens_view(tokens@));
        assert(tokens_view(tokens@).len() == tokens@.len());
        assert(tokens_view(tokens@)[pos as int] == tokens@[pos as int]@);
    }
    let n = tokens.len();
    assert(pos < n);
    let tt = tokens[pos].tok_type;
    match tt {
        TOKEN_TYPE::LE | TOKEN_TYPE::LT | TOKEN_TYPE::GE | TOKEN_TYPE::GT => {
            let p1 = match consume_token(tokens, pos, tt) {
                Ok(p) => p,
                Err(err) => return Err(err),
            };
            let (rhs, p2) = match rvaladd(tokens, p1) {
                Ok(v) => v,
                Err(err) => return Err(err),
            };
            let op = match token_to_op(tt) {
                Ok(o) => o,
                Err(err) => return Err(err),
            };
            rvalcomp_p(tokens, p2, Expression::BinOp(op, Box::new(lhs), Box::new(rhs)))
        },
        TOKEN_TYPE::EQ | TOKEN_TYPE::NEQ | TOKEN_TYPE::AND | TOKEN_TYPE::OR | TOKEN_TYPE::SC
            | TOKEN_TYPE::RPAR => Ok((lhs, pos)),
        _ => Err(ParseError::UnexpectedToken(tt)),
    }
}

/// Parses at the relational level.
fn rvalcomp(tokens: &Vec<token>, pos: usize) -> (r: Result<(Expression, usize), ParseError>)
    requires
        pos_ok(tokens_view(tokens@), pos as int),
    ensures
        match r {
            Ok((e, p)) => sp_rvalcomp(tokens_view(tokens@), pos as int) == Ok::<
                (ExprModel, int),
                ParseError,
            >((e@, p as int)) && pos < p <= first_eof(tokens_view(tokens@)),
            Err(err) => sp_rvalcomp(tokens_view(tokens@), pos as int) == Err::<
                (ExprModel, int),
                ParseError,
            >(err),
        },
{
    reveal(sp_rvalcomp);
    proof {
        lemma_first_eof(tokens_view(tokens@));
        assert(tokens_view(tokens@).len() == tokens@.len());
    }
    let (lhs, p1) = match rvaladd(tokens, pos) {
        Ok(v) => v,
        Err(err) => return Err(err),
    };
    rvalcomp_p(tokens, p1, lhs)
}

/// The equality level's operator loop.
fn rvaleq_p(tokens: &Vec<token>, pos: usize, lhs: Expression) -> (r: Result<
    (Expression, usize),
    ParseError,
>)
    requires
        pos_ok(tokens_view(tokens@), pos as int),
    ensures
        match r {
            Ok((e, p)) => sp_rvaleq_p(tokens_view(tokens@), pos as int, lhs@) == Ok::<
                (ExprModel, int),
                ParseError,
            >((e@, p as int)) && pos <= p <= first_eof(tokens_view(tokens@)),
            Err(err) => sp_rvaleq_p(tokens_view(tokens@), pos as int, lhs@) == Err::<
                (ExprModel, int),
                ParseError,
            >(err),
        },
    decreases tokens@.len() - pos,
{
    reveal_with_fuel(sp_rvaleq_p, 2);
    proof {
        lemma_first_eof(tokens_view(tokens@));
        assert(tokens_view(tokens@).len() == tokens@.len());
        assert(tokens_view(tokens@)[pos as int] == tokens@[pos as int]@);
    }
    let n = tokens.len();
    assert(pos < n);
    let tt = tokens[pos].tok_type;
    match tt {
        TOKEN_TYPE::EQ | TOKEN_TYPE::NEQ => {
            let p1 = match consume_token(tokens, pos, tt) {
                Ok(p) => p,
                Err(err) => return Err(err),
            };
            let (rhs, p2) = match rvalcomp(tokens, p1) {
                Ok(v) => v,
                Err(err) => return Err(err),
            };
            let op = match token_to_op(tt) {
                Ok(o) => o,
                Err(err) => return Err(err),
            };
            rvaleq_p(tokens, p2, Expression::BinOp(op, Box::new(lhs), Box::new(rhs)))
        },
        TOKEN_TYPE::AND | TOKEN_TYPE::OR | TOKEN_TYPE::SC | TOKEN_TYPE::RPAR => Ok((lhs, pos)),
        _ => Err(ParseError::UnexpectedToken(tt)),
    }
}

/// Parses at the equality level.
fn rvaleq(tokens: &Vec<token>, pos: usize) -> (r: Result<(Expression, usize), ParseError>)
    requires
        pos_ok(tokens_view(tokens@), pos as int),
    ensures
        match r {
            Ok((e, p)) => sp_rvaleq(tokens_view(tokens@), pos as int) == Ok::<
                (ExprModel, int),
                ParseError,
            >((e@, p as int)) && pos < p <= first_eof(tokens_view(tokens@)),
            Err(err) => sp_rvaleq(tokens_view(tokens@), pos as int) == Err::<
                (ExprModel, int),
                ParseError,
            >(err),
        },
{
    reveal(sp_rvaleq);
    proof {
        lemma_first_eof(tokens_view(tokens@));
        assert(tokens_view(tokens@).len() == tokens@.len());
    }
    let (lhs, p1) = match rvalcomp(tokens, pos) {
        Ok(v) => v,
        Err(err) => return Err(err),
    };
    rvaleq_p(tokens, p1, lhs)
}

/// The `and` level's operator loop.
fn rvaland_p(tokens: &Vec<token>, pos: usize, lhs: Expression) -> (r: Result<
    (Expression, usize),
    ParseError,
>)
    requires
        pos_ok(tokens_view(tokens@), pos as int),
    ensures
        match r {
            Ok((e, p)) => sp_rvaland_p(tokens_view(tokens@), pos as int, lhs@) == Ok::<
                (ExprModel, int),
                ParseError,
            >((e@, p as int)) && pos <= p <= first_eof(tokens_view(tokens@)),
            Err(err) => sp_rvaland_p(tokens_view(tokens@), pos as int, lhs@) == Err::<
                (ExprModel, int),
                ParseError,
            >(err),
        },
    decreases tokens@.len() - pos,
{
    reveal_with_fuel(sp_rvaland_p, 2);
    proof {
        lemma_first_eof(tokens_view(tokens@));
        assert(tokens_view(tokens@).len() == tokens@.len());
        assert(tokens_view(tokens@)[pos as int] == tokens@[pos as int]@);
    }
    let n = tokens.len();
    assert(pos < n);
    let tt = tokens[pos].tok_type;
    match tt {
        TOKEN_TYPE::AND => {
            let p1 = match consume_token(tokens, pos, tt) {
                Ok(p) => p,
                Err(err) => return Err(err),
            };
            let (rhs, p2) = match rvaleq(tokens, p1) {
                Ok(v) => v,
                Err(err) => return Err(err),
            };
            let op = match token_to_op(tt) {
                Ok(o) => o,
                Err(err) => return Err(err),
            };
            rvaland_p(tokens, p2, Expression::BinOp(op, Box::new(lhs), Box::new(rhs)))
        },
        TOKEN_TYPE::OR | TOKEN_TYPE::SC | TOKEN_TYPE::RPAR => Ok((lhs, pos)),
        _ => Err(ParseError::UnexpectedToken(tt)),
    }
}

/// Parses at the `and` level.
fn rvaland(tokens: &Vec<token>, pos: usize) -> (r: Result<(Expression, usize), ParseError>)
    requires
        pos_ok(tokens_view(tokens@), pos as int),
    ensures
        match r {
            Ok((e, p)) => sp_rvaland(tokens_view(tokens@), pos as int) == Ok::<
                (ExprModel, int),
                ParseError,
            >((e@, p as int)) && pos < p <= first_eof(tokens_view(tokens@)),
            Err(err) => sp_rvaland(tokens_view(tokens@), pos as int) == Err::<
                (ExprModel, int),
                ParseError,
            >(err),
        },
{
    reveal(sp_rvaland);
    proof {
        lemma_first_eof(tokens_view(tokens@));
        assert(tokens_view(tokens@).len() == tokens@.len());
    }
    let (lhs, p1) = match rvaleq(tokens, pos) {
        Ok(v) => v,
        Err(err) => return Err(err),
    };
    rvaland_p(tokens, p1, lhs)
}

/// The `or` level's operator loop.
fn rvalor(tokens: &Vec<token>, pos: usize, lhs: Expression) -> (r: Result<
    (Expression, usize),
    ParseError,
>)
    requires
        pos_ok(tokens_view(tokens@), pos as int),
    ensures
        match r {
            Ok((e, p)) => sp_rvalor(tokens_view(tokens@), pos as int, lhs@) == Ok::<
                (ExprModel, int),
                ParseError,
            >((e@, p as int)) && pos <= p <= first_eof(tokens_view(tokens@)),
            Err(err) => sp_rvalor(tokens_view(tokens@), pos as int, lhs@) == Err::<
                (ExprModel, int),
                ParseError,
            >(err),
        },
    decreases tokens@.len() - pos,
{
    reveal_with_fuel(sp_rvalor, 2);
    proof {
        lemma_first_eof(tokens_view(tokens@));
        assert(tokens_view(tokens@).len() == tokens@.len());
        assert(tokens_view(tokens@)[pos as int] == tokens@[pos as int]@);
    }
    let n = tokens.len();
    assert(pos < n);
    let tt = tokens[pos].tok_type;
    match tt {
        TOKEN_TYPE::OR => {
            let p1 = match consume_token(tokens, pos, tt) {
                Ok(p) => p,
                Err(err) => return Err(err),
            };
            let (rhs, p2) = match rvaland(tokens, p1) {
                Ok(v) => v,
                Err(err) => return Err(err),
            };
            let op = match token_to_op(tt) {
                Ok(o) => o,
                Err(err) => return Err(err),
            };
            rvalor(tokens, p2, Expression::BinOp(op, Box::new(lhs), Box::new(rhs)))
        },
        TOKEN_TYPE::SC | TOKEN_TYPE::RPAR => Ok((lhs, pos)),
        _ => Err(ParseError::UnexpectedToken(tt)),
    }
}

/// Parses a whole expression.
fn parse_expression(tokens: &Vec<token>, pos: usize) -> (r: Result<
    (Expression, usize),
    ParseError,
>)
    requires
        pos_ok(tokens_view(tokens@), pos as int),
    ensures
        match r {
            Ok((e, p)) => sp_parse_expression(tokens_view(tokens@), pos as int) == Ok::<
                (ExprModel, int),
                ParseError,
            >((e@, p as int)) && pos < p <= first_eof(tokens_view(tokens@)),
            Err(err) => sp_parse_expression(tokens_view(tokens@), pos as int) == Err::<
                (ExprModel, int),
                ParseError,
            >(err),
        },
{
    reveal(sp_parse_expression);
    proof {
        lemma_first_eof(tokens_view(tokens@));
        assert(tokens_view(tokens@).len() == tokens@.len());
    }
    let (lhs, p1) = match rvaland(tokens, pos) {
        Ok(v) => v,
        Err(err) => return Err(err),
    };
    rvalor(tokens, p1, lhs)
}

/// Parsing is deterministic: any two parses of the same token stream yield
/// structurally identical programs (and any two failing parses the same
/// error), because the parse result is a function of the stream alone.
pub proof fn lemma_gen_ast_deterministic(
    toks: Seq<TokenModel>,
    p1: Seq<StmtModel>,
    p2: Seq<StmtModel>,
)
    requires
        sp_gen_ast(toks) == Ok::<Seq<StmtModel>, ParseError>(p1),
        sp_gen_ast(toks) == Ok::<Seq<StmtModel>, ParseError>(p2),
    ensures
        p1 == p2,
{
}

/// How a block parse under way relates to the whole block parse: what
/// remains to be parsed from `cur`, appended to the statements already
/// accumulated, gives the parse from `pos`.
pub open spec fn sp_block_step(
    toks: Seq<TokenModel>,
    pos: int,
    acc: Seq<StmtModel>,
    cur: int,
) -> bool {
    match sp_parse_block(toks, cur) {
        Ok((rest, p)) => sp_parse_block(toks, pos) == Ok::<(Seq<StmtModel>, int), ParseError>(
            (acc + rest, p),
        ),
        Err(e) => sp_parse_block(toks, pos) == Err::<(Seq<StmtModel>, int), ParseError>(e),
    }
}

/// The same relation for a whole-program parse under way.
pub open spec fn sp_prog_step(
    toks: Seq<TokenModel>,
    pos: int,
    acc: Seq<StmtModel>,
    cur: int,
) -> bool {
    match sp_parse_prog(toks, cur) {
        Ok((rest, p)) => sp_parse_prog(toks, pos) == Ok::<(Seq<StmtModel>, int), ParseError>(
            (acc + rest, p),
        ),
        Err(e) => sp_parse_prog(toks, pos) == Err::<(Seq<StmtModel>, int), ParseError>(e),
    }
}

/// The same relation for an `elseif` chain parse under way.
pub open spec fn sp_elifs_step(
    toks: Seq<TokenModel>,
    pos: int,
    acc: Seq<(ExprModel, Seq<StmtModel>)>,
    cur: int,
) -> bool {
    match sp_parse_elifs(toks, cur) {
        Ok((rest, p)) => sp_parse_elifs(toks, pos) == Ok::<
            (Seq<(ExprModel, Seq<StmtModel>)>, int),
            ParseError,
        >((acc + rest, p)),
        Err(e) => sp_parse_elifs(toks, pos) == Err::<
            (Seq<(ExprModel, Seq<StmtModel>)>, int),
            ParseError,
        >(e),
    }
}

/// Parses an assignment statement: `identifier = expression ;`.
fn parse_assign(tokens: &Vec<token>, pos: usize) -> (r: Result<(Statement, usize), ParseError>)
    requires
        pos_ok(tokens_view(tokens@), pos as int),
    ensures
        match r {
            Ok((s, p)) => sp_parse_assign(tokens_view(tokens@), pos as int) == Ok::<
                (StmtModel, int),
                ParseError,
            >((s@, p as int)) && pos < p <= first_eof(tokens_view(tokens@)),
            Err(err) => sp_parse_assign(tokens_view(tokens@), pos as int) == Err::<
                (StmtModel, int),
                ParseError,
            >(err),
        },
{
    reveal(sp_parse_assign);
    proof {
        lemma_first_eof(tokens_view(tokens@));
        assert(tokens_view(tokens@).len() == tokens@.len());
        assert(tokens_view(tokens@)[pos as int] == tokens@[pos as int]@);
    }
    let n = tokens.len();
    assert(pos < n);
    if tokens[pos].tok_type != TOKEN_TYPE::VAR {
        return Err(ParseError::UnexpectedToken(tokens[pos].tok_type));
    }
    let name = match &tokens[pos].val {
        Some(s) => s.clone(),
        None => return Err(ParseError::VariableParseError),
    };
    let p1 = pos + 1;
    let p2 = match consume_token(tokens, p1, TOKEN_TYPE::ASSIGN) {
        Ok(p) => p,
        Err(err) => return Err(err),
    };
    proof {
        assert(tokens_view(tokens@)[p2 as int] == tokens@[p2 as int]@);
    }
    if tokens[p2].tok_type != TOKEN_TYPE::VAR && tokens[p2].tok_type != TOKEN_TYPE::INT_LIT {
        return Err(ParseError::UnexpectedToken(tokens[p2].tok_type));
    }
    let (exp, p3) = match parse_expression(tokens, p2) {
        Ok(v) => v,
        Err(err) => return Err(err),
    };
    let p4 = match consume_token(tokens, p3, TOKEN_TYPE::SC) {
        Ok(p) => p,
        Err(err) => return Err(err),
    };
    Ok((Statement::AssignStatement { var: name, exp }, p4))
}

/// Parses an output statement: `output expression ;`.
fn parse_output(tokens: &Vec<token>, pos: usize) -> (r: Result<(Statement, usize), ParseError>)
    requires
        pos_ok(tokens_view(tokens@), pos as int),
    ensures
        match r {
            Ok((s, p)) => sp_parse_output(tokens_view(tokens@), pos as int) == Ok::<
                (StmtModel, int),
                ParseError,
            >((s@, p as int)) && pos < p <= first_eof(tokens_view(tokens@)),
            Err(err) => sp_parse_output(tokens_view(tokens@), pos as int) == Err::<
                (StmtModel, int),
                ParseError,
            >(err),
        },
{
    reveal(sp_parse_output);
    proof {
        lemma_first_eof(tokens_view(tokens@));
        assert(tokens_view(tokens@).len() == tokens@.len());
    }
    let p1 = match consume_token(tokens, pos, TOKEN_TYPE::OUTPUT) {
        Ok(p) => p,
        Err(err) => return Err(err),
    };
    let (exp, p2) = match parse_expression(tokens, p1) {
        Ok(v) => v,
        Err(err) => return Err(err),
    };
    let p3 = match consume_token(tokens, p2, TOKEN_TYPE::SC) {
        Ok(p) => p,
        Err(err) => return Err(err),
    };
    Ok((Statement::OutputStatement { to_output: exp }, p3))
}

/// Parses a repeat statement: `repeat ( expression ) { block }`.
fn parse_repeat(tokens: &Vec<token>, pos: usize) -> (r: Result<(Statement, usize), ParseError>)
    requires
        pos_ok(tokens_view(tokens@), pos as int),
    ensures
        match r {
            Ok((s, p)) => sp_parse_repeat(tokens_view(tokens@), pos as int) == Ok::<
                (StmtModel, int),
                ParseError,
            >((s@, p as int)) && pos < p <= first_eof(tokens_view(tokens@)),
            Err(err) => sp_parse_repeat(tokens_view(tokens@), pos as int) == Err::<
                (StmtModel, int),
                ParseError,
            >(err),
        },
    decreases tokens@.len() - pos, 0int,
{
    reveal_with_fuel(sp_parse_repeat, 2);
    reveal_with_fuel(sp_parse_elifs, 2);
    reveal_with_fuel(sp_parse_if, 2);
    reveal_with_fuel(sp_parse_if_else, 2);
    reveal_with_fuel(sp_parse_stmt, 2);
    reveal_with_fuel(sp_parse_block, 2);
    reveal_with_fuel(sp_parse_prog, 2);
    proof {
        lemma_first_eof(tokens_view(tokens@));
        assert(tokens_view(tokens@).len() == tokens@.len());
    }
    let p1 = match consume_token(tokens, pos, TOKEN_TYPE::REPEAT) {
        Ok(p) => p,
        Err(err) => return Err(err),
    };
    let p2 = match consume_token(tokens, p1, TOKEN_TYPE::LPAR) {
        Ok(p) => p,
        Err(err) => return Err(err),
    };
    let (times, p3) = match parse_expression(tokens, p2) {
        Ok(v) => v,
        Err(err) => return Err(err),
    };
    let p4 = match consume_token(tokens, p3, TOKEN_TYPE::RPAR) {
        Ok(p) => p,
        Err(err) => return Err(err),
    };
    let p5 = match consume_token(tokens, p4, TOKEN_TYPE::LBRA) {
        Ok(p) => p,
        Err(err) => return Err(err),
    };
    let (body, p6) = match parse_block(tokens, p5) {
        Ok(v) => v,
        Err(err) => return Err(err),
    };
    let p7 = match consume_token(tokens, p6, TOKEN_TYPE::RBRA) {
        Ok(p) => p,
        Err(err) => return Err(err),
    };
    Ok((Statement::RepeatStatement { times, body }, p7))
}

/// Parses the `elseif` chain of an `if` statement.
#[verifier::loop_isolation(false)]
fn parse_elifs(tokens: &Vec<token>, pos: usize) -> (r: Result<
    (Vec<(Expression, Block)>, usize),
    ParseError,
>)
    requires
        pos_ok(tokens_view(tokens@), pos as int),
    ensures
        match r {
            Ok((es, p)) => sp_parse_elifs(tokens_view(tokens@), pos as int) == Ok::<
                (Seq<(ExprModel, Seq<StmtModel>)>, int),
                ParseError,
            >((elifs_view(es@), p as int)) && pos <= p <= first_eof(tokens_view(tokens@)),
            Err(err) => sp_parse_elifs(tokens_view(tokens@), pos as int) == Err::<
                (Seq<(ExprModel, Seq<StmtModel>)>, int),
                ParseError,
            >(err),
        },
    decreases tokens@.len() - pos, 0int,
{
    reveal_with_fuel(sp_parse_repeat, 2);
    reveal_with_fuel(sp_parse_elifs, 2);
    reveal_with_fuel(sp_parse_if, 2);
    reveal_with_fuel(sp_parse_if_else, 2);
    reveal_with_fuel(sp_parse_stmt, 2);
    reveal_with_fuel(sp_parse_block, 2);
    reveal_with_fuel(sp_parse_prog, 2);
    let ghost tv = tokens_view(tokens@);
    proof {
        lemma_first_eof(tv);
        assert(tv.len() == tokens@.len());
    }
    let n = tokens.len();
    let mut elifs: Vec<(Expression, Block)> = Vec::new();
    let mut cur = pos;
    proof {
        assert(elifs_view(elifs@) =~= Seq::<(ExprModel, Seq<StmtModel>)>::empty());
        match sp_parse_elifs(tv, pos as int) {
            Ok((rest, p)) => {
                assert(elifs_view(elifs@) + rest =~= rest);
            },
            Err(e) => {},
        }
    }
    while cur < n && tokens[cur].tok_type == TOKEN_TYPE::ELSEIF
        invariant
            pos <= cur,
            pos_ok(tv, cur as int),
            sp_elifs_step(tv, pos as int, elifs_view(elifs@), cur as int),
        decreases first_eof(tv) - cur,
    {
        proof {
            assert(tv[cur as int] == tokens@[cur as int]@);
        }
        let ghost acc = elifs_view(elifs@);
        let c0 = match consume_token(tokens, cur, TOKEN_TYPE::ELSEIF) {
            Ok(p) => p,
            Err(err) => return Err(err),
        };
        let c1 = match consume_token(tokens, c0, TOKEN_TYPE::LPAR) {
            Ok(p) => p,
            Err(err) => return Err(err),
        };
        let (cond, c2) = match parse_expression(tokens, c1) {
            Ok(v) => v,
            Err(err) => return Err(err),
        };
        let c3 = match consume_token(tokens, c2, TOKEN_TYPE::RPAR) {
            Ok(p) => p,
            Err(err) => return Err(err),
        };
        let c4 = match consume_token(tokens, c3, TOKEN_TYPE::LBRA) {
            Ok(p) => p,
            Err(err) => return Err(err),
        };
        let (body, c5) = match parse_block(tokens, c4) {
            Ok(v) => v,
            Err(err) => return Err(err),
        };
        let c6 = match consume_token(tokens, c5, TOKEN_TYPE::RBRA) {
            Ok(p) => p,
            Err(err) => return Err(err),
        };
        proof {
            lemma_elifs_view_push(elifs@, (cond, body));
            match sp_parse_elifs(tv, c6 as int) {
                Ok((rest, p)) => {
                    assert(acc + (seq![(cond@, body@)] + rest) =~= acc.push((cond@, body@))
                        + rest);
                },
                Err(e) => {},
            }
        }
        elifs.push((cond, body));
        cur = c6;
    }
    proof {
        if cur < n {
            assert(tv[cur as int] == tokens@[cur as int]@);
        }
        match sp_parse_elifs(tv, pos as int) {
            Ok((rest, p)) => {
                assert(elifs_view(elifs@) + Seq::<(ExprModel, Seq<StmtModel>)>::empty()
                    =~= elifs_view(elifs@));
            },
            Err(e) => {},
        }
    }
    Ok((elifs, cur))
}

/// Parses an if statement with its `elseif` chain and optional `else`.
fn parse_if(tokens: &Vec<token>, pos: usize) -> (r: Result<(Statement, usize), ParseError>)
    requires
        pos_ok(tokens_view(tokens@), pos as int),
    ensures
        match r {
            Ok((s, p)) => sp_parse_if(tokens_view(tokens@), pos as int) == Ok::<
                (StmtModel, int),
                ParseError,
            >((s@, p as int)) && pos < p <= first_eof(tokens_view(tokens@)),
            Err(err) => sp_parse_if(tokens_view(tokens@), pos as int) == Err::<
                (StmtModel, int),
                ParseError,
            >(err),
        },
    decreases tokens@.len() - pos, 0int,
{
    reveal_with_fuel(sp_parse_repeat, 2);
    reveal_with_fuel(sp_parse_elifs, 2);
    reveal_with_fuel(sp_parse_if, 2);
    reveal_with_fuel(sp_parse_if_else, 2);
    reveal_with_fuel(sp_parse_stmt, 2);
    reveal_with_fuel(sp_parse_block, 2);
    reveal_with_fuel(sp_parse_prog, 2);
    let ghost tv = tokens_view(tokens@);
    proof {
        lemma_first_eof(tv);
        assert(tv.len() == tokens@.len());
    }
    let p1 = match consume_token(tokens, pos, TOKEN_TYPE::IF) {
        Ok(p) => p,
        Err(err) => return Err(err),
    };
    let p2 = match consume_token(tokens, p1, TOKEN_TYPE::LPAR) {
        Ok(p) => p,
        Err(err) => return Err(err),
    };
    let (condition, p3) = match parse_expression(tokens, p2) {
        Ok(v) => v,
        Err(err) => return Err(err),
    };
    let p4 = match consume_token(tokens, p3, TOKEN_TYPE::RPAR) {
        Ok(p) => p,
        Err(err) => return Err(err),
    };
    let p5 = match consume_token(tokens, p4, TOKEN_TYPE::LBRA) {
        Ok(p) => p,
        Err(err) => return Err(err),
    };
    let (body, p6) = match parse_block(tokens, p5) {
        Ok(v) => v,
        Err(err) => return Err(err),
    };
    let p7 = match consume_token(tokens, p6, TOKEN_TYPE::RBRA) {
        Ok(p) => p,
        Err(err) => return Err(err),
    };
    let (else_if, p8) = match parse_elifs(tokens, p7) {
        Ok(v) => v,
        Err(err) => return Err(err),
    };
    let n = tokens.len();
    assert(p8 < n);
    proof {
        assert(tv[p8 as int] == tokens@[p8 as int]@);
    }
    if tokens[p8].tok_type == TOKEN_TYPE::ELSE {
        let p9 = match consume_token(tokens, p8, TOKEN_TYPE::ELSE) {
            Ok(p) => p,
            Err(err) => return Err(err),
        };
        let p10 = match consume_token(tokens, p9, TOKEN_TYPE::LBRA) {
            Ok(p) => p,
            Err(err) => return Err(err),
        };
        let (else_body, p11) = match parse_block(tokens, p10) {
            Ok(v) => v,
            Err(err) => return Err(err),
        };
        let p12 = match consume_token(tokens, p11, TOKEN_TYPE::RBRA) {
            Ok(p) => p,
            Err(err) => return Err(err),
        };
        Ok((Statement::IfStatement { condition, body, else_if, else_body }, p12))
    } else {
        let else_body = Block { statements: Vec::new() };
        proof {
            assert(stmts_view(else_body.statements@) =~= Seq::<StmtModel>::empty());
        }
        Ok((Statement::IfStatement { condition, body, else_if, else_body }, p8))
    }
}

/// Parses one statement, recognized by its leading token.
fn parse_stmt(tokens: &Vec<token>, pos: usize) -> (r: Result<(Statement, usize), ParseError>)
    requires
        pos_ok(tokens_view(tokens@), pos as int),
    ensures
        match r {
            Ok((s, p)) => sp_parse_stmt(tokens_view(tokens@), pos as int) == Ok::<
                (StmtModel, int),
                ParseError,
            >((s@, p as int)) && pos < p <= first_eof(tokens_view(tokens@)),
            Err(err) => sp_parse_stmt(tokens_view(tokens@), pos as int) == Err::<
                (StmtModel, int),
                ParseError,
            >(err),
        },
    decreases tokens@.len() - pos, 1int,
{
    reveal_with_fuel(sp_parse_repeat, 2);
    reveal_with_fuel(sp_parse_elifs, 2);
    reveal_with_fuel(sp_parse_if, 2);
    reveal_with_fuel(sp_parse_if_else, 2);
    reveal_with_fuel(sp_parse_stmt, 2);
    reveal_with_fuel(sp_parse_block, 2);
    reveal_with_fuel(sp_parse_prog, 2);
    proof {
        lemma_first_eof(tokens_view(tokens@));
        assert(tokens_view(tokens@).len() == tokens@.len());
        assert(tokens_view(tokens@)[pos as int] == tokens@[pos as int]@);
    }
    let n = tokens.len();
    assert(pos < n);
    match tokens[pos].tok_type {
        TOKEN_TYPE::VAR => parse_assign(tokens, pos),
        TOKEN_TYPE::IF => parse_if(tokens, pos),
        TOKEN_TYPE::REPEAT => parse_repeat(tokens, pos),
        TOKEN_TYPE::OUTPUT => parse_output(tokens, pos),
        tt => Err(ParseError::UnexpectedToken(tt)),
    }
}

/// Parses a block body: statements until the closing brace, which is left
/// for the surrounding construct to consume.
#[verifier::loop_isolation(false)]
fn parse_block(tokens: &Vec<token>, pos: usize) -> (r: Result<(Block, usize), ParseError>)
    requires
        pos_ok(tokens_view(tokens@), pos as int),
    ensures
        match r {
            Ok((b, p)) => sp_parse_block(tokens_view(tokens@), pos as int) == Ok::<
                (Seq<StmtModel>, int),
                ParseError,
            >((b@, p as int)) && pos <= p <= first_eof(tokens_view(tokens@)),
            Err(err) => sp_parse_block(tokens_view(tokens@), pos as int) == Err::<
                (Seq<StmtModel>, int),
                ParseError,
            >(err),
        },
    decreases tokens@.len() - pos, 2int,
{
    reveal_with_fuel(sp_parse_repeat, 2);
    reveal_with_fuel(sp_parse_elifs, 2);
    reveal_with_fuel(sp_parse_if, 2);
    reveal_with_fuel(sp_parse_if_else, 2);
    reveal_with_fuel(sp_parse_stmt, 2);
    reveal_with_fuel(sp_parse_block, 2);
    reveal_with_fuel(sp_parse_prog, 2);
    let ghost tv = tokens_view(tokens@);
    proof {
        lemma_first_eof(tv);
        assert(tv.len() == tokens@.len());
    }
    let n = tokens.len();
    let mut statements: Vec<Statement> = Vec::new();
    let mut cur = pos;
    proof {
        assert(stmts_view(statements@) =~= Seq::<StmtModel>::empty());
        match sp_parse_block(tv, pos as int) {
            Ok((rest, p)) => {
                assert(stmts_view(statements@) + rest =~= rest);
            },
            Err(e) => {},
        }
    }
    while tokens[cur].tok_type != TOKEN_TYPE::RBRA
        invariant
            pos <= cur,
            pos_ok(tv, cur as int),
            sp_block_step(tv, pos as int, stmts_view(statements@), cur as int),
        decreases first_eof(tv) - cur,
    {
        proof {
            assert(tv[cur as int] == tokens@[cur as int]@);
        }
        let ghost acc = stmts_view(statements@);
        match parse_stmt(tokens, cur) {
            Err(err) => {
                return Err(err);
            },
            Ok((stmt, p1)) => {
                proof {
                    lemma_stmts_view_push(statements@, stmt);
                    match sp_parse_block(tv, p1 as int) {
                        Ok((rest, p)) => {
                            assert(acc + (seq![stmt@] + rest) =~= acc.push(stmt@) + rest);
                        },
                        Err(e) => {},
                    }
                }
                statements.push(stmt);
                cur = p1;
            },
        }
    }
    proof {
        assert(tv[cur as int] == tokens@[cur as int]@);
        match sp_parse_block(tv, pos as int) {
            Ok((rest, p)) => {
                assert(stmts_view(statements@) + Seq::<StmtModel>::empty() =~= stmts_view(
                    statements@,
                ));
            },
            Err(e) => {},
        }
    }
    Ok((Block { statements }, cur))
}

/// Parses a whole token stream into a program: statements until the
/// end-marker token, which is examined exactly once and never passed.
#[verifier::loop_isolation(false)]
pub fn gen_ast(tokens: &Vec<token>) -> (r: Result<Program, ParseError>)
    requires
        stream_ok(tokens_view(tokens@)),
    ensures
        match r {
            Ok(p) => sp_gen_ast(tokens_view(tokens@)) == Ok::<Seq<StmtModel>, ParseError>(p@),
            Err(err) => sp_gen_ast(tokens_view(tokens@)) == Err::<Seq<StmtModel>, ParseError>(
                err,
            ),
        },
{
    reveal_with_fuel(sp_parse_repeat, 2);
    reveal_with_fuel(sp_parse_elifs, 2);
    reveal_with_fuel(sp_parse_if, 2);
    reveal_with_fuel(sp_parse_if_else, 2);
    reveal_with_fuel(sp_parse_stmt, 2);
    reveal_with_fuel(sp_parse_block, 2);
    reveal_with_fuel(sp_parse_prog, 2);
    reveal(sp_gen_ast);
    let ghost tv = tokens_view(tokens@);
    proof {
        lemma_first_eof(tv);
        assert(tv.len() == tokens@.len());
    }
    let n = tokens.len();
    let mut my_program = Program::new();
    let mut cur: usize = 0;
    proof {
        assert(stmts_view(my_program.program.statements@) =~= Seq::<StmtModel>::empty());
        match sp_parse_prog(tv, 0int) {
            Ok((rest, p)) => {
                assert(stmts_view(my_program.program.statements@) + rest =~= rest);
            },
            Err(e) => {},
        }
    }
    while tokens[cur].tok_type != TOKEN_TYPE::EOF_TOK
        invariant
            pos_ok(tv, cur as int),
            sp_prog_step(tv, 0int, stmts_view(my_program.program.statements@), cur as int),
        decreases first_eof(tv) - cur,
    {
        proof {
            assert(tv[cur as int] == tokens@[cur as int]@);
        }
        let ghost acc = stmts_view(my_program.program.statements@);
        match parse_stmt(tokens, cur) {
            Err(err) => {
                return Err(err);
            },
            Ok((stmt, p1)) => {
                proof {
                    lemma_stmts_view_push(my_program.program.statements@, stmt);
                    match sp_parse_prog(tv, p1 as int) {
                        Ok((rest, p)) => {
                            assert(acc + (seq![stmt@] + rest) =~= acc.push(stmt@) + rest);
                        },
                        Err(e) => {},
                    }
                }
                my_program.program.statements.push(stmt);
                cur = p1;
            },
        }
    }
    proof {
        assert(tv[cur as int] == tokens@[cur as int]@);
        match sp_parse_prog(tv, 0int) {
            Ok((rest, p)) => {
                assert(stmts_view(my_program.program.statements@) + Seq::<StmtModel>::empty()
                    =~= stmts_view(my_program.program.statements@));
            },
            Err(e) => {},
        }
    }
    Ok(my_program)
}

/// Two token streams that agree token for token through their first
/// end-marker, which sits at the same position in both.
pub open spec fn agree_to_first_eof(t1: Seq<TokenModel>, t2: Seq<TokenModel>) -> bool {
    &&& stream_ok(t1)
    &&& stream_ok(t2)
    &&& first_eof(t1) == first_eof(t2)
    &&& forall|j: int| 0 <= j <= first_eof(t1) ==> t1[j] == t2[j]
}

/// On streams that agree through the first end-marker, checking a token of a
/// kind other than the end-marker reads the same token and lands at the same
/// in-bounds position.
proof fn agree_consume(t1: Seq<TokenModel>, t2: Seq<TokenModel>, pos: int, expected: TOKEN_TYPE)
    requires
        agree_to_first_eof(t1, t2),
        0 <= pos <= first_eof(t1),
        expected != TOKEN_TYPE::EOF_TOK,
    ensures
        sp_consume(t1, pos, expected) == sp_consume(t2, pos, expected),
        match sp_consume(t1, pos, expected) {
            Ok(p) => p == pos + 1 && pos < p <= first_eof(t1),
            Err(_) => true,
        },
{
    lemma_first_eof(t1);
    lemma_first_eof(t2);
    assert(t1[pos] == t2[pos]);
}

/// Parsing a literal reads only the token at the current position.
proof fn agree_rvallit(t1: Seq<TokenModel>, t2: Seq<TokenModel>, pos: int)
    requires
        agree_to_first_eof(t1, t2),
        0 <= pos <= first_eof(t1),
    ensures
        sp_rvallit(t1, pos) == sp_rvallit(t2, pos),
        match sp_rvallit(t1, pos) {
            Ok((_, p)) => pos < p <= first_eof(t1),
            Err(_) => true,
        },
    decreases first_eof(t1) - pos, 0int,
{
    reveal(sp_rvallit);
    lemma_first_eof(t1);
    lemma_first_eof(t2);
    assert(t1[pos] == t2[pos]);
}

/// The multiplicative operator loop reads only tokens up to the first
/// end-marker.
proof fn agree_rvalmult_p(t1: Seq<TokenModel>, t2: Seq<TokenModel>, pos: int, lhs: ExprModel)
    requires
        agree_to_first_eof(t1, t2),
        0 <= pos <= first_eof(t1),
    ensures
        sp_rvalmult_p(t1, pos, lhs) == sp_rvalmult_p(t2, pos, lhs),
        match sp_rvalmult_p(t1, pos, lhs) {
            Ok((_, p)) => pos <= p <= first_eof(t1),
            Err(_) => true,
        },
    decreases first_eof(t1) - pos, 0int,
{
    reveal_with_fuel(sp_rvalmult_p, 2);
    lemma_first_eof(t1);
    lemma_first_eof(t2);
    assert(t1[pos] == t2[pos]);
    let tt = t1[pos].tok_type;
    match tt {
        TOKEN_TYPE::ASTERIX | TOKEN_TYPE::DIV | TOKEN_TYPE::MOD => {
            agree_consume(t1, t2, pos, tt);
            agree_rvallit(t1, t2, pos + 1);
            match sp_rvallit(t1, pos + 1) {
                Ok((rhs, p2)) => {
                    match sp_token_to_op(tt) {
                        Ok(op) => {
                            agree_rvalmult_p(
                                t1,
                                t2,
                                p2,
                                ExprModel::BinOp(op, Box::new(lhs), Box::new(rhs)),
                            );
                        },
                        Err(_) => {},
                    }
                },
                Err(_) => {},
            }
        },
        _ => {},
    }
}

/// Parsing at the multiplicative level reads only tokens up to the first
/// end-marker.
proof fn agree_rvalmult(t1: Seq<TokenModel>, t2: Seq<TokenModel>, pos: int)
    requires
        agree_to_first_eof(t1, t2),
        0 <= pos <= first_eof(t1),
    ensures
        sp_rvalmult(t1, pos) == sp_rvalmult(t2, pos),
        match sp_rvalmult(t1, pos) {
            Ok((_, p)) => pos < p <= first_eof(t1),
            Err(_) => true,
        },
    decreases first_eof(t1) - pos, 1int,
{
    reveal(sp_rvalmult);
    lemma_first_eof(t1);
    lemma_first_eof(t2);
    agree_rvallit(t1, t2, pos);
    match sp_rvallit(t1, pos) {
        Ok((lhs, p1)) => {
            agree_rvalmult_p(t1, t2, p1, lhs);
        },
        Err(_) => {},
    }
}

/// The additive operator loop reads only tokens up to the first end-marker.
proof fn agree_rvaladd_p(t1: Seq<TokenModel>, t2: Seq<TokenModel>, pos: int, lhs: ExprModel)
    requires
        agree_to_first_eof(t1, t2),
        0 <= pos <= first_eof(t1),
    ensures
        sp_rvaladd_p(t1, pos, lhs) == sp_rvaladd_p(t2, pos, lhs),
        match sp_rvaladd_p(t1, pos, lhs) {
            Ok((_, p)) => pos <= p <= first_eof(t1),
            Err(_) => true,
        },
    decreases first_eof(t1) - pos, 0int,
{
    reveal_with_fuel(sp_rvaladd_p, 2);
    lemma_first_eof(t1);
    lemma_first_eof(t2);
    assert(t1[pos] == t2[pos]);
    let tt = t1[pos].tok_type;
    match tt {
        TOKEN_TYPE::PLUS | TOKEN_TYPE::MINUS => {
            agree_consume(t1, t2, pos, tt);
            agree_rvalmult(t1, t2, pos + 1);
            match sp_rvalmult(t1, pos + 1) {
                Ok((rhs, p2)) => {
                    match sp_token_to_op(tt) {
                        Ok(op) => {
                            agree_rvaladd_p(
                                t1,
                                t2,
                                p2,
                                ExprModel::BinOp(op, Box::new(lhs), Box::new(rhs)),
                            );
                        },
                        Err(_) => {},
                    }
                },
                Err(_) => {},
            }
        },
        _ => {},
    }
}

/// Parsing at the additive level reads only tokens up to the first
/// end-marker.
proof fn agree_rvaladd(t1: Seq<TokenModel>, t2: Seq<TokenModel>, pos: int)
    requires
        agree_to_first_eof(t1, t2),
        0 <= pos <= first_eof(t1),
    ensures
        sp_rvaladd(t1, pos) == sp_rvaladd(t2, pos),
        match sp_rvaladd(t1, pos) {
            Ok((_, p)) => pos < p <= first_eof(t1),
            Err(_) => true,
        },
    decreases first_eof(t1) - pos, 2int,
{
    reveal(sp_rvaladd);
    lemma_first_eof(t1);
    lemma_first_eof(t2);
    agree_rvalmult(t1, t2, pos);
    match sp_rvalmult(t1, pos) {
        Ok((lhs, p1)) => {
            agree_rvaladd_p(t1, t2, p1, lhs);
        },
        Err(_) => {},
    }
}

/// The relational operator loop reads only tokens up to the first
/// end-marker.
proof fn agree_rvalcomp_p(t1: Seq<TokenModel>, t2: Seq<TokenModel>, pos: int, lhs: ExprModel)
    requires
        agree_to_first_eof(t1, t2),
        0 <= pos <= first_eof(t1),
    ensures
        sp_rvalcomp_p(t1, pos, lhs) == sp_rvalcomp_p(t2, pos, lhs),
        match sp_rvalcomp_p(t1, pos, lhs) {
            Ok((_, p)) => pos <= p <= first_eof(t1),
            Err(_) => true,
        },
    decreases first_eof(t1) - pos, 0int,
{
    reveal_with_fuel(sp_rvalcomp_p, 2);
    lemma_first_eof(t1);
    lemma_first_eof(t2);
    assert(t1[pos] == t2[pos]);
    let tt = t1[pos].tok_type;
    match tt {
        TOKEN_TYPE::LE | TOKEN_TYPE::LT | TOKEN_TYPE::GE | TOKEN_TYPE::GT => {
            agree_consume(t1, t2, pos, tt);
            agree_rvaladd(t1, t2, pos + 1);
            match sp_rvaladd(t1, pos + 1) {
                Ok((rhs, p2)) => {
                    match sp_token_to_op(tt) {
                        Ok(op) => {
                            agree_rvalcomp_p(
                                t1,
                                t2,
                                p2,
                                ExprModel::BinOp(op, Box::new(lhs), Box::new(rhs)),
                            );
                        },
                        Err(_) => {},
                    }
                },
                Err(_) => {},
            }
        },
        _ => {},
    }
}

/// Parsing at the relational level reads only tokens up to the first
/// end-marker.
proof fn agree_rvalcomp(t1: Seq<TokenModel>, t2: Seq<TokenModel>, pos: int)
    requires
        agree_to_first_eof(t1, t2),
        0 <= pos <= first_eof(t1),
    ensures
        sp_rvalcomp(t1, pos) == sp_rvalcomp(t2, pos),
        match sp_rvalcomp(t1, pos) {
            Ok((_, p)) => pos < p <= first_eof(t1),
            Err(_) => true,
        },
    decreases first_eof(t1) - pos, 3int,
{
    reveal(sp_rvalcomp);
    lemma_first_eof(t1);
    lemma_first_eof(t2);
    agree_rvaladd(t1, t2, pos);
    match sp_rvaladd(t1, pos) {
        Ok((lhs, p1)) => {
            agree_rvalcomp_p(t1, t2, p1, lhs);
        },
        Err(_) => {},
    }
}

/// The equality operator loop reads only tokens up to the first end-marker.
proof fn agree_rvaleq_p(t1: Seq<TokenModel>, t2: Seq<TokenModel>, pos: int, lhs: ExprModel)
    requires
        agree_to_first_eof(t1, t2),
        0 <= pos <= first_eof(t1),
    ensures
        sp_rvaleq_p(t1, pos, lhs) == sp_rvaleq_p(t2, pos, lhs),
        match sp_rvaleq_p(t1, pos, lhs) {
            Ok((_, p)) => pos <= p <= first_eof(t1),
            Err(_) => true,
        },
    decreases first_eof(t1) - pos, 0int,
{
    reveal_with_fuel(sp_rvaleq_p, 2);
    lemma_first_eof(t1);
    lemma_first_eof(t2);
    assert(t1[pos] == t2[pos]);
    let tt = t1[pos].tok_type;
    match tt {
        TOKEN_TYPE::EQ | TOKEN_TYPE::NEQ => {
            agree_consume(t1, t2, pos, tt);
            agree_rvalcomp(t1, t2, pos + 1);
            match sp_rvalcomp(t1, pos + 1) {
                Ok((rhs, p2)) => {
                    match sp_token_to_op(tt) {
                        Ok(op) => {
                            agree_rvaleq_p(
                                t1,
                                t2,
                                p2,
                                ExprModel::BinOp(op, Box::new(lhs), Box::new(rhs)),
                            );
                        },
                        Err(_) => {},
                    }
                },
                Err(_) => {},
            }
        },
        _ => {},
    }
}

/// Parsing at the equality level reads only tokens up to the first
/// end-marker.
proof fn agree_rvaleq(t1: Seq<TokenModel>, t2: Seq<TokenModel>, pos: int)
    requires
        agree_to_first_eof(t1, t2),
        0 <= pos <= first_eof(t1),
    ensures
        sp_rvaleq(t1, pos) == sp_rvaleq(t2, pos),
        match sp_rvaleq(t1, pos) {
            Ok((_, p)) => pos < p <= first_eof(t1),
            Err(_) => true,
        },
    decreases first_eof(t1) - pos, 4int,
{
    reveal(sp_rvaleq);
    lemma_first_eof(t1);
    lemma_first_eof(t2);
    agree_rvalcomp(t1, t2, pos);
    match sp_rvalcomp(t1, pos) {
        Ok((lhs, p1)) => {
            agree_rvaleq_p(t1, t2, p1, lhs);
        },
        Err(_) => {},
    }
}

/// The `and` operator loop reads only tokens up to the first end-marker.
proof fn agree_rvaland_p(t1: Seq<TokenModel>, t2: Seq<TokenModel>, pos: int, lhs: ExprModel)
    requires
        agree_to_first_eof(t1, t2),
        0 <= pos <= first_eof(t1),
    ensures
        sp_rvaland_p(t1, pos, lhs) == sp_rvaland_p(t2, pos, lhs),
        match sp_rvaland_p(t1, pos, lhs) {
            Ok((_, p)) => pos <= p <= first_eof(t1),
            Err(_) => true,
        },
    decreases first_eof(t1) - pos, 0int,
{
    reveal_with_fuel(sp_rvaland_p, 2);
    lemma_first_eof(t1);
    lemma_first_eof(t2);
    assert(t1[pos] == t2[pos]);
    let tt = t1[pos].tok_type;
    match tt {
        TOKEN_TYPE::AND => {
            agree_consume(t1, t2, pos, tt);
            agree_rvaleq(t1, t2, pos + 1);
            match sp_rvaleq(t1, pos + 1) {
                Ok((rhs, p2)) => {
                    match sp_token_to_op(tt) {
                        Ok(op) => {
                            agree_rvaland_p(
                                t1,
                                t2,
                                p2,
                                ExprModel::BinOp(op, Box::new(lhs), Box::new(rhs)),
                            );
                        },
                        Err(_) => {},
                    }
                },
                Err(_) => {},
            }
        },
        _ => {},
    }
}

/// Parsing at the `and` level reads only tokens up to the first end-marker.
proof fn agree_rvaland(t1: Seq<TokenModel>, t2: Seq<TokenModel>, pos: int)
    requires
        agree_to_first_eof(t1, t2),
        0 <= pos <= first_eof(t1),
    ensures
        sp_rvaland(t1, pos) == sp_rvaland(t2, pos),
        match sp_rvaland(t1, pos) {
            Ok((_, p)) => pos < p <= first_eof(t1),
            Err(_) => true,
        },
    decreases first_eof(t1) - pos, 5int,
{
    reveal(sp_rvaland);
    lemma_first_eof(t1);
    lemma_first_eof(t2);
    agree_rvaleq(t1, t2, pos);
    match sp_rvaleq(t1, pos) {
        Ok((lhs, p1)) => {
            agree_rvaland_p(t1, t2, p1, lhs);
        },
        Err(_) => {},
    }
}

/// The `or` operator loop reads only tokens up to the first end-marker.
proof fn agree_rvalor(t1: Seq<TokenModel>, t2: Seq<TokenModel>, pos: int, lhs: ExprModel)
    requires
        agree_to_first_eof(t1, t2),
        0 <= pos <= first_eof(t1),
    ensures
        sp_rvalor(t1, pos, lhs) == sp_rvalor(t2, pos, lhs),
        match sp_rvalor(t1, pos, lhs) {
            Ok((_, p)) => pos <= p <= first_eof(t1),
            Err(_) => true,
        },
    decreases first_eof(t1) - pos, 0int,
{
    reveal_with_fuel(sp_rvalor, 2);
    lemma_first_eof(t1);
    lemma_first_eof(t2);
    assert(t1[pos] == t2[pos]);
    let tt = t1[pos].tok_type;
    match tt {
        TOKEN_TYPE::OR => {
            agree_consume(t1, t2, pos, tt);
            agree_rvaland(t1, t2, pos + 1);
            match sp_rvaland(t1, pos + 1) {
                Ok((rhs, p2)) => {
                    match sp_token_to_op(tt) {
                        Ok(op) => {
                            agree_rvalor(
                                t1,
                                t2,
                                p2,
                                ExprModel::BinOp(op, Box::new(lhs), Box::new(rhs)),
                            );
                        },
                        Err(_) => {},
                    }
                },
                Err(_) => {},
            }
        },
        _ => {},
    }
}

/// Parsing a whole expression reads only tokens up to the first end-marker.
proof fn agree_parse_expression(t1: Seq<TokenModel>, t2: Seq<TokenModel>, pos: int)
    requires
        agree_to_first_eof(t1, t2),
        0 <= pos <= first_eof(t1),
    ensures
        sp_parse_expression(t1, pos) == sp_parse_expression(t2, pos),
        match sp_parse_expression(t1, pos) {
            Ok((_, p)) => pos < p <= first_eof(t1),
            Err(_) => true,
        },
    decreases first_eof(t1) - pos, 6int,
{
    reveal(sp_parse_expression);
    lemma_first_eof(t1);
    lemma_first_eof(t2);
    agree_rvaland(t1, t2, pos);
    match sp_rvaland(t1, pos) {
        Ok((lhs, p1)) => {
            agree_rvalor(t1, t2, p1, lhs);
        },
        Err(_) => {},
    }
}

/// Parsing an assignment reads only tokens up to the first end-marker.
proof fn agree_parse_assign(t1: Seq<TokenModel>, t2: Seq<TokenModel>, pos: int)
    requires
        agree_to_first_eof(t1, t2),
        0 <= pos <= first_eof(t1),
    ensures
        sp_parse_assign(t1, pos) == sp_parse_assign(t2, pos),
        match sp_parse_assign(t1, pos) {
            Ok((_, p)) => pos < p <= first_eof(t1),
            Err(_) => true,
        },
    decreases first_eof(t1) - pos, 7int,
{
    reveal(sp_parse_assign);
    lemma_first_eof(t1);
    lemma_first_eof(t2);
    assert(t1[pos] == t2[pos]);
    if t1[pos].tok_type == TOKEN_TYPE::VAR {
        match t1[pos].val {
            None => {},
            Some(name) => {
                agree_consume(t1, t2, pos + 1, TOKEN_TYPE::ASSIGN);
                match sp_consume(t1, pos + 1, TOKEN_TYPE::ASSIGN) {
                    Err(_) => {},
                    Ok(p2) => {
                        assert(t1[p2] == t2[p2]);
                        agree_parse_expression(t1, t2, p2);
                        match sp_parse_expression(t1, p2) {
                            Err(_) => {},
                            Ok((exp, p3)) => {
                                agree_consume(t1, t2, p3, TOKEN_TYPE::SC);
                            },
                        }
                    },
                }
            },
        }
    }
}

/// Parsing an output statement reads only tokens up to the first end-marker.
proof fn agree_parse_output(t1: Seq<TokenModel>, t2: Seq<TokenModel>, pos: int)
    requires
        agree_to_first_eof(t1, t2),
        0 <= pos <= first_eof(t1),
    ensures
        sp_parse_output(t1, pos) == sp_parse_output(t2, pos),
        match sp_parse_output(t1, pos) {
            Ok((_, p)) => pos < p <= first_eof(t1),
            Err(_) => true,
        },
    decreases first_eof(t1) - pos, 7int,
{
    reveal(sp_parse_output);
    lemma_first_eof(t1);
    lemma_first_eof(t2);
    agree_consume(t1, t2, pos, TOKEN_TYPE::OUTPUT);
    match sp_consume(t1, pos, TOKEN_TYPE::OUTPUT) {
        Err(_) => {},
        Ok(p1) => {
            agree_parse_expression(t1, t2, p1);
            match sp_parse_expression(t1, p1) {
                Err(_) => {},
                Ok((exp, p2)) => {
                    agree_consume(t1, t2, p2, TOKEN_TYPE::SC);
                },
            }
        },
    }
}

/// Parsing a repeat statement reads only tokens up to the first end-marker.
proof fn agree_parse_repeat(t1: Seq<TokenModel>, t2: Seq<TokenModel>, pos: int)
    requires
        agree_to_first_eof(t1, t2),
        0 <= pos <= first_eof(t1),
    ensures
        sp_parse_repeat(t1, pos) == sp_parse_repeat(t2, pos),
        match sp_parse_repeat(t1, pos) {
            Ok((_, p)) => pos < p <= first_eof(t1),
            Err(_) => true,
        },
    decreases first_eof(t1) - pos, 7int,
{
    reveal_with_fuel(sp_parse_repeat, 2);
    reveal_with_fuel(sp_parse_elifs, 2);
    reveal_with_fuel(sp_parse_if, 2);
    reveal_with_fuel(sp_parse_if_else, 2);
    reveal_with_fuel(sp_parse_stmt, 2);
    reveal_with_fuel(sp_parse_block, 2);
    reveal_with_fuel(sp_parse_prog, 2);
    lemma_first_eof(t1);
    lemma_first_eof(t2);
    agree_consume(t1, t2, pos, TOKEN_TYPE::REPEAT);
    match sp_consume(t1, pos, TOKEN_TYPE::REPEAT) {
        Err(_) => {},
        Ok(p1) => {
            agree_consume(t1, t2, p1, TOKEN_TYPE::LPAR);
            match sp_consume(t1, p1, TOKEN_TYPE::LPAR) {
                Err(_) => {},
                Ok(p2) => {
                    agree_parse_expression(t1, t2, p2);
                    match sp_parse_expression(t1, p2) {
                        Err(_) => {},
                        Ok((times, p3)) => {
                            agree_consume(t1, t2, p3, TOKEN_TYPE::RPAR);
                            match sp_consume(t1, p3, TOKEN_TYPE::RPAR) {
                                Err(_) => {},
                                Ok(p4) => {
                                    agree_consume(t1, t2, p4, TOKEN_TYPE::LBRA);
                                    match sp_consume(t1, p4, TOKEN_TYPE::LBRA) {
                                        Err(_) => {},
                                        Ok(p5) => {
                                            agree_parse_block(t1, t2, p5);
                                            match sp_parse_block(t1, p5) {
                                                Err(_) => {},
                                                Ok((body, p6)) => {
                                                    agree_consume(t1, t2, p6, TOKEN_TYPE::RBRA);
                                                },
                                            }
                                        },
                                    }
                                },
                            }
                        },
                    }
                },
            }
        },
    }
}

/// Parsing an `elseif` chain reads only tokens up to the first end-marker.
proof fn agree_parse_elifs(t1: Seq<TokenModel>, t2: Seq<TokenModel>, pos: int)
    requires
        agree_to_first_eof(t1, t2),
        0 <= pos <= first_eof(t1),
    ensures
        sp_parse_elifs(t1, pos) == sp_parse_elifs(t2, pos),
        match sp_parse_elifs(t1, pos) {
            Ok((_, p)) => pos <= p <= first_eof(t1),
            Err(_) => true,
        },
    decreases first_eof(t1) - pos, 7int,
{
    reveal_with_fuel(sp_parse_repeat, 2);
    reveal_with_fuel(sp_parse_elifs, 2);
    reveal_with_fuel(sp_parse_if, 2);
    reveal_with_fuel(sp_parse_if_else, 2);
    reveal_with_fuel(sp_parse_stmt, 2);
    reveal_with_fuel(sp_parse_block, 2);
    reveal_with_fuel(sp_parse_prog, 2);
    lemma_first_eof(t1);
    lemma_first_eof(t2);
    assert(t1[pos] == t2[pos]);
    if t1[pos].tok_type == TOKEN_TYPE::ELSEIF {
        agree_consume(t1, t2, pos, TOKEN_TYPE::ELSEIF);
        match sp_consume(t1, pos, TOKEN_TYPE::ELSEIF) {
            Err(_) => {},
            Ok(p1) => {
                agree_consume(t1, t2, p1, TOKEN_TYPE::LPAR);
                match sp_consume(t1, p1, TOKEN_TYPE::LPAR) {
                    Err(_) => {},
                    Ok(p2) => {
                        agree_parse_expression(t1, t2, p2);
                        match sp_parse_expression(t1, p2) {
                            Err(_) => {},
                            Ok((cond, p3)) => {
                                agree_consume(t1, t2, p3, TOKEN_TYPE::RPAR);
                                match sp_consume(t1, p3, TOKEN_TYPE::RPAR) {
                                    Err(_) => {},
                                    Ok(p4) => {
                                        agree_consume(t1, t2, p4, TOKEN_TYPE::LBRA);
                                        match sp_consume(t1, p4, TOKEN_TYPE::LBRA) {
                                            Err(_) => {},
                                            Ok(p5) => {
                                                agree_parse_block(t1, t2, p5);
                                                match sp_parse_block(t1, p5) {
                                                    Err(_) => {},
                                                    Ok((body, p6)) => {
                                                        agree_consume(
                                                            t1,
                                                            t2,
                                                            p6,
                                                            TOKEN_TYPE::RBRA,
                                                        );
                                                        match sp_consume(
                                                            t1,
                                                            p6,
                                                            TOKEN_TYPE::RBRA,
                                                        ) {
                                                            Err(_) => {},
                                                            Ok(p7) => {
                                                                agree_parse_elifs(t1, t2, p7);
                                                            },
                                                        }
                                                    },
                                                }
                                            },
                                        }
                                    },
                                }
                            },
                        }
                    },
                }
            },
        }
    }
}

/// Parsing the optional `else` tail reads only tokens up to the first
/// end-marker.
proof fn agree_parse_if_else(
    t1: Seq<TokenModel>,
    t2: Seq<TokenModel>,
    pos: int,
    condition: ExprModel,
    body: Seq<StmtModel>,
    else_if: Seq<(ExprModel, Seq<StmtModel>)>,
    p8: int,
)
    requires
        agree_to_first_eof(t1, t2),
        0 <= pos <= first_eof(t1),
        pos <= p8 <= first_eof(t1),
    ensures
        sp_parse_if_else(t1, pos, condition, body, else_if, p8) == sp_parse_if_else(
            t2,
            pos,
            condition,
            body,
            else_if,
            p8,
        ),
        match sp_parse_if_else(t1, pos, condition, body, else_if, p8) {
            Ok((_, p)) => p8 <= p <= first_eof(t1),
            Err(_) => true,
        },
    decreases first_eof(t1) - pos, 7int,
{
    reveal_with_fuel(sp_parse_repeat, 2);
    reveal_with_fuel(sp_parse_elifs, 2);
    reveal_with_fuel(sp_parse_if, 2);
    reveal_with_fuel(sp_parse_if_else, 2);
    reveal_with_fuel(sp_parse_stmt, 2);
    reveal_with_fuel(sp_parse_block, 2);
    reveal_with_fuel(sp_parse_prog, 2);
    lemma_first_eof(t1);
    lemma_first_eof(t2);
    assert(t1[p8] == t2[p8]);
    if t1[p8].tok_type == TOKEN_TYPE::ELSE {
        agree_consume(t1, t2, p8, TOKEN_TYPE::ELSE);
        match sp_consume(t1, p8, TOKEN_TYPE::ELSE) {
            Err(_) => {},
            Ok(p9) => {
                agree_consume(t1, t2, p9, TOKEN_TYPE::LBRA);
                match sp_consume(t1, p9, TOKEN_TYPE::LBRA) {
                    Err(_) => {},
                    Ok(p10) => {
                        agree_parse_block(t1, t2, p10);
                        match sp_parse_block(t1, p10) {
                            Err(_) => {},
                            Ok((else_body, p11)) => {
                                agree_consume(t1, t2, p11, TOKEN_TYPE::RBRA);
                            },
                        }
                    },
                }
            },
        }
    }
}

/// Parsing an `if` statement reads only tokens up to the first end-marker.
proof fn agree_parse_if(t1: Seq<TokenModel>, t2: Seq<TokenModel>, pos: int)
    requires
        agree_to_first_eof(t1, t2),
        0 <= pos <= first_eof(t1),
    ensures
        sp_parse_if(t1, pos) == sp_parse_if(t2, pos),
        match sp_parse_if(t1, pos) {
            Ok((_, p)) => pos < p <= first_eof(t1),
            Err(_) => true,
        },
    decreases first_eof(t1) - pos, 8int,
{
    reveal_with_fuel(sp_parse_repeat, 2);
    reveal_with_fuel(sp_parse_elifs, 2);
    reveal_with_fuel(sp_parse_if, 2);
    reveal_with_fuel(sp_parse_if_else, 2);
    reveal_with_fuel(sp_parse_stmt, 2);
    reveal_with_fuel(sp_parse_block, 2);
    reveal_with_fuel(sp_parse_prog, 2);
    lemma_first_eof(t1);
    lemma_first_eof(t2);
    agree_consume(t1, t2, pos, TOKEN_TYPE::IF);
    match sp_consume(t1, pos, TOKEN_TYPE::IF) {
        Err(_) => {},
        Ok(p1) => {
            agree_consume(t1, t2, p1, TOKEN_TYPE::LPAR);
            match sp_consume(t1, p1, TOKEN_TYPE::LPAR) {
                Err(_) => {},
                Ok(p2) => {
                    agree_parse_expression(t1, t2, p2);
                    match sp_parse_expression(t1, p2) {
                        Err(_) => {},
                        Ok((condition, p3)) => {
                            agree_consume(t1, t2, p3, TOKEN_TYPE::RPAR);
                            match sp_consume(t1, p3, TOKEN_TYPE::RPAR) {
                                Err(_) => {},
                                Ok(p4) => {
                                    agree_consume(t1, t2, p4, TOKEN_TYPE::LBRA);
                                    match sp_consume(t1, p4, TOKEN_TYPE::LBRA) {
                                        Err(_) => {},
                                        Ok(p5) => {
                                            agree_parse_block(t1, t2, p5);
                                            match sp_parse_block(t1, p5) {
                                                Err(_) => {},
                                                Ok((body, p6)) => {
                                                    agree_consume(t1, t2, p6, TOKEN_TYPE::RBRA);
                                                    match sp_consume(t1, p6, TOKEN_TYPE::RBRA) {
                                                        Err(_) => {},
                                                        Ok(p7) => {
                                                            agree_parse_elifs(t1, t2, p7);
                                                            match sp_parse_elifs(t1, p7) {
                                                                Err(_) => {},
                                                                Ok((else_if, p8)) => {
                                                                    agree_parse_if_else(
                                                                        t1,
                                                                        t2,
                                                                        pos,
                                                                        condition,
                                                                        body,
                                                                        else_if,
                                                                        p8,
                                                                    );
                                                                },
                                                            }
                                                        },
                                                    }
                                                },
                                            }
                                        },
                                    }
                                },
                            }
                        },
                    }
                },
            }
        },
    }
}

/// Parsing one statement reads only tokens up to the first end-marker.
proof fn agree_parse_stmt(t1: Seq<TokenModel>, t2: Seq<TokenModel>, pos: int)
    requires
        agree_to_first_eof(t1, t2),
        0 <= pos <= first_eof(t1),
    ensures
        sp_parse_stmt(t1, pos) == sp_parse_stmt(t2, pos),
        match sp_parse_stmt(t1, pos) {
            Ok((_, p)) => pos < p <= first_eof(t1),
            Err(_) => true,
        },
    decreases first_eof(t1) - pos, 9int,
{
    reveal_with_fuel(sp_parse_repeat, 2);
    reveal_with_fuel(sp_parse_elifs, 2);
    reveal_with_fuel(sp_parse_if, 2);
    reveal_with_fuel(sp_parse_if_else, 2);
    reveal_with_fuel(sp_parse_stmt, 2);
    reveal_with_fuel(sp_parse_block, 2);
    reveal_with_fuel(sp_parse_prog, 2);
    lemma_first_eof(t1);
    lemma_first_eof(t2);
    assert(t1[pos] == t2[pos]);
    match t1[pos].tok_type {
        TOKEN_TYPE::VAR => agree_parse_assign(t1, t2, pos),
        TOKEN_TYPE::IF => agree_parse_if(t1, t2, pos),
        TOKEN_TYPE::REPEAT => agree_parse_repeat(t1, t2, pos),
        TOKEN_TYPE::OUTPUT => agree_parse_output(t1, t2, pos),
        _ => {},
    }
}

/// Parsing a block reads only tokens up to the first end-marker.
proof fn agree_parse_block(t1: Seq<TokenModel>, t2: Seq<TokenModel>, pos: int)
    requires
        agree_to_first_eof(t1, t2),
        0 <= pos <= first_eof(t1),
    ensures
        sp_parse_block(t1, pos) == sp_parse_block(t2, pos),
        match sp_parse_block(t1, pos) {
            Ok((_, p)) => pos <= p <= first_eof(t1),
            Err(_) => true,
        },
    decreases first_eof(t1) - pos, 10int,
{
    reveal_with_fuel(sp_parse_repeat, 2);
    reveal_with_fuel(sp_parse_elifs, 2);
    reveal_with_fuel(sp_parse_if, 2);
    reveal_with_fuel(sp_parse_if_else, 2);
    reveal_with_fuel(sp_parse_stmt, 2);
    reveal_with_fuel(sp_parse_block, 2);
    reveal_with_fuel(sp_parse_prog, 2);
    lemma_first_eof(t1);
    lemma_first_eof(t2);
    assert(t1[pos] == t2[pos]);
    if t1[pos].tok_type != TOKEN_TYPE::RBRA {
        agree_parse_stmt(t1, t2, pos);
        match sp_parse_stmt(t1, pos) {
            Err(_) => {},
            Ok((sv, p1)) => {
                agree_parse_block(t1, t2, p1);
            },
        }
    }
}

/// Parsing a whole program reads only tokens up to the first end-marker.
proof fn agree_parse_prog(t1: Seq<TokenModel>, t2: Seq<TokenModel>, pos: int)
    requires
        agree_to_first_eof(t1, t2),
        0 <= pos <= first_eof(t1),
    ensures
        sp_parse_prog(t1, pos) == sp_parse_prog(t2, pos),
        match sp_parse_prog(t1, pos) {
            Ok((_, p)) => pos <= p <= first_eof(t1),
            Err(_) => true,
        },
    decreases first_eof(t1) - pos, 11int,
{
    reveal_with_fuel(sp_parse_repeat, 2);
    reveal_with_fuel(sp_parse_elifs, 2);
    reveal_with_fuel(sp_parse_if, 2);
    reveal_with_fuel(sp_parse_if_else, 2);
    reveal_with_fuel(sp_parse_stmt, 2);
    reveal_with_fuel(sp_parse_block, 2);
    reveal_with_fuel(sp_parse_prog, 2);
    lemma_first_eof(t1);
    lemma_first_eof(t2);
    assert(t1[pos] == t2[pos]);
    if t1[pos].tok_type != TOKEN_TYPE::EOF_TOK {
        agree_parse_stmt(t1, t2, pos);
        match sp_parse_stmt(t1, pos) {
            Err(_) => {},
            Ok((sv, p1)) => {
                agree_parse_prog(t1, t2, p1);
            },
        }
    }
}

/// The parser never reads past the first end-marker: two token streams that
/// agree token for token through their first end-marker parse to the same
/// result, whatever follows that end-marker in either.
pub proof fn lemma_gen_ast_reads_to_first_eof(t1: Seq<TokenModel>, t2: Seq<TokenModel>)
    requires
        agree_to_first_eof(t1, t2),
    ensures
        sp_gen_ast(t1) == sp_gen_ast(t2),
{
    reveal(sp_gen_ast);
    lemma_first_eof(t1);
    agree_parse_prog(t1, t2, 0);
}

/// Cutting a stream just after its first end-marker keeps that end-marker
/// first.
proof fn lemma_first_eof_take(toks: Seq<TokenModel>, k: int)
    requires
        stream_ok(toks),
        first_eof(toks) < k <= toks.len(),
    ensures
        stream_ok(toks.take(k)),
        first_eof(toks.take(k)) == first_eof(toks),
    decreases k,
{
    lemma_first_eof(toks);
    let p = toks.take(k);
    assert(p[first_eof(toks)] == toks[first_eof(toks)]);
    assert(stream_ok(p));
    if toks[0].tok_type == TOKEN_TYPE::EOF_TOK {
        assert(p[0] == toks[0]);
    } else {
        assert(p[0] == toks[0]);
        let rest = toks.drop_first();
        assert(rest[first_eof(toks) - 1] == toks[first_eof(toks)]);
        assert(stream_ok(rest));
        assert(p.drop_first() =~= rest.take(k - 1));
        lemma_first_eof_take(rest, k - 1);
    }
}

/// The parser consumes exactly one end-marker token and never reads past
/// it: a stream parses exactly like its prefix that ends at the first
/// end-marker, and that prefix holds one end-marker, at its last position.
pub proof fn lemma_gen_ast_reads_one_end_marker(toks: Seq<TokenModel>)
    requires
        stream_ok(toks),
    ensures
        sp_gen_ast(toks) == sp_gen_ast(toks.take(first_eof(toks) + 1)),
        toks.take(first_eof(toks) + 1).len() == first_eof(toks) + 1,
        toks.take(first_eof(toks) + 1)[first_eof(toks)].tok_type == TOKEN_TYPE::EOF_TOK,
        forall|j: int| 0 <= j < first_eof(toks) ==> (#[trigger] toks.take(first_eof(toks) + 1)[j]).tok_type
            != TOKEN_TYPE::EOF_TOK,
{
    lemma_first_eof(toks);
    let k = first_eof(toks) + 1;
    lemma_first_eof_take(toks, k);
    assert(agree_to_first_eof(toks, toks.take(k)));
    lemma_gen_ast_reads_to_first_eof(toks, toks.take(k));
}

} // verus!
