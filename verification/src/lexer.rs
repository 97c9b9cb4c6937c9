//! Token vocabulary of the language.
//!
//! Tokens are produced by a scanner that this library treats as an external
//! collaborator: it always yields a structurally valid token, marks an
//! unrecognizable lexeme with the reserved `INVALID` kind, and marks the end
//! of input with the reserved `EOF_TOK` kind.  A token's `val` carries the
//! spelling of an identifier or integer literal; `None` stands for a spelling
//! the scanner could not deliver (a malformed name).

use vstd::prelude::*;

verus! {

/// The kind of a token: keywords, punctuation, operators, literals, and the
/// reserved end-of-input and invalid-lexeme markers.
#[allow(non_camel_case_types)]
#[derive(Debug, PartialEq, Eq, Structural, Copy, Clone)]
pub enum TOKEN_TYPE {
    VAR,
    ASSIGN,
    LBRA,
    RBRA,
    LPAR,
    RPAR,
    SC,
    REPEAT,
    IF,
    ELSE,
    ELSEIF,
    OUTPUT,
    INT_LIT,
    AND,
    OR,
    PLUS,
    MINUS,
    ASTERIX,
    DIV,
    MOD,
    EQ,
    NEQ,
    LE,
    LT,
    GE,
    GT,
    EOF_TOK,
    INVALID,
}

/// One token: its kind and, for identifiers and integer literals, its
/// spelling.  `val == None` models a spelling that the scanner failed to
/// produce; the parser reports it as a malformed name or literal.
#[allow(non_camel_case_types)]
#[derive(Debug, PartialEq, Clone)]
pub struct token {
    pub tok_type: TOKEN_TYPE,
    pub val: Option<String>,
}

/// Mathematical model of a token: the kind together with the spelling as a
/// sequence of characters.
pub struct TokenModel {
    pub tok_type: TOKEN_TYPE,
    pub val: Option<Seq<char>>,
}

impl View for token {
    type V = TokenModel;

    open spec fn view(&self) -> TokenModel {
        TokenModel {
            tok_type: self.tok_type,
            val: match self.val {
                Some(s) => Some(s@),
                None => None,
            },
        }
    }
}

/// The model of a whole token stream.
pub open spec fn tokens_view(toks: Seq<token>) -> Seq<TokenModel> {
    toks.map_values(|t: token| t@)
}

impl token {
    /// Builds a token without a spelling, for kinds that carry none.
    pub fn bare(tok_type: TOKEN_TYPE) -> (t: token)
        ensures
            t@.tok_type == tok_type,
            t@.val is None,
    {
        token { tok_type, val: None }
    }

    /// Builds a token carrying a spelling (an identifier or integer literal).
    pub fn with_val(tok_type: TOKEN_TYPE, val: String) -> (t: token)
        ensures
            t@.tok_type == tok_type,
            t@.val == Some(val@),
    {
        token { tok_type, val: Some(val) }
    }
}

} // verus!
