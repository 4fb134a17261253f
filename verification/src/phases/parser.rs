//! Syntax-only parser: checks that a token stream matches the language's
//! grammar, with no symbol table and no code generation. Each function
//! is verified against a ghost mirror (`sx_*` spec functions) giving the
//! exact stop position or error message.

use vstd::prelude::*;

use crate::phases::lexer::Token;
use crate::phases::lexer::TokenV;
use crate::phases::lexer::token_views;
use crate::phases::semantic_parser::end_terminated;
use crate::phases::semantic_parser::lemma_not_end_bound;
use crate::phases::semantic_parser::lemma_vec_len_bound;
use crate::phases::semantic_parser::step_ok;
use crate::phases::semantic_parser::toks_rem;

verus! {

// ---------------------------------------------------------------------
// The ghost mirror of the syntax check
// ---------------------------------------------------------------------
//
// Each `sx_*` function returns the position just past the construct it
// recognizes, or the error message. The `arbitrary()` branches are
// unreachable: they are guarded by `step_ok`, and every executable parse
// consumes at least one token.

/// Mirror of `parse_term`.
pub open spec fn sx_term(t: Seq<TokenV>, i: int) -> Result<int, Seq<char>>
    decreases toks_rem(t, i), 0int,
{
    if i >= t.len() {
        Err("Unexpected end of input"@)
    } else {
        match t[i] {
            TokenV::Ident(_) => {
                if t[i + 1] is LeftParen {
                    match sx_call_args(t, i + 2) {
                        Err(m) => Err(m),
                        Ok(j) => {
                            if t[j] is RightParen {
                                Ok(j + 1)
                            } else {
                                Err("Parser: Function call expects closing parenthesis"@)
                            }
                        },
                    }
                } else if t[i + 1] is LeftBracket {
                    match sx_expression(t, i + 2) {
                        Err(m) => Err(m),
                        Ok(j) => {
                            if t[j] is RightBracket {
                                Ok(j + 1)
                            } else {
                                Err("Parser: Array access expects closing bracket ']'"@)
                            }
                        },
                    }
                } else {
                    Ok(i + 1)
                }
            },
            TokenV::Num(_) => Ok(i + 1),
            TokenV::LeftParen => {
                match sx_expression(t, i + 1) {
                    Err(m) => Err(m),
                    Ok(j) => {
                        if t[j] is RightParen {
                            Ok(j + 1)
                        } else {
                            Err("Parser: Expression expects closing parenthesis ')'"@)
                        }
                    },
                }
            },
            _ => Err("Parser: Unexpected token, expected a term"@),
        }
    }
}

/// Mirror of the argument loop inside a function-call term.
pub open spec fn sx_call_args(t: Seq<TokenV>, i: int) -> Result<int, Seq<char>>
    decreases toks_rem(t, i), 6int,
{
    if i >= t.len() {
        arbitrary()
    } else if t[i] is RightParen {
        Ok(i)
    } else {
        match sx_expression(t, i) {
            Err(m) => Err(m),
            Ok(j) => {
                if t[j] is Comma {
                    if step_ok(t, i, j) {
                        sx_call_args(t, j + 1)
                    } else {
                        arbitrary()
                    }
                } else {
                    Ok(j)
                }
            },
        }
    }
}

/// Mirror of the `* / %` chain in `parse_multiply_expression`.
pub open spec fn sx_mult_chain(t: Seq<TokenV>, i: int) -> Result<int, Seq<char>>
    decreases toks_rem(t, i), 2int,
{
    if i >= t.len() {
        arbitrary()
    } else if t[i] is Multiply || t[i] is Divide || t[i] is Modulus {
        match sx_term(t, i + 1) {
            Err(m) => Err(m),
            Ok(j) => {
                if step_ok(t, i, j) {
                    sx_mult_chain(t, j)
                } else {
                    arbitrary()
                }
            },
        }
    } else {
        Ok(i)
    }
}

/// Mirror of `parse_multiply_expression`.
pub open spec fn sx_mult(t: Seq<TokenV>, i: int) -> Result<int, Seq<char>>
    decreases toks_rem(t, i), 3int,
{
    match sx_term(t, i) {
        Err(m) => Err(m),
        Ok(j) => {
            if step_ok(t, i, j) {
                sx_mult_chain(t, j)
            } else {
                arbitrary()
            }
        },
    }
}

/// Mirror of the `+ -` chain in `parse_expression`.
pub open spec fn sx_expr_chain(t: Seq<TokenV>, i: int) -> Result<int, Seq<char>>
    decreases toks_rem(t, i), 4int,
{
    if i >= t.len() {
        arbitrary()
    } else if t[i] is Plus || t[i] is Subtract {
        match sx_mult(t, i + 1) {
            Err(m) => Err(m),
            Ok(j) => {
                if step_ok(t, i, j) {
                    sx_expr_chain(t, j)
                } else {
                    arbitrary()
                }
            },
        }
    } else {
        Ok(i)
    }
}

/// Mirror of `parse_expression`.
pub open spec fn sx_expression(t: Seq<TokenV>, i: int) -> Result<int, Seq<char>>
    decreases toks_rem(t, i), 5int,
{
    match sx_mult(t, i) {
        Err(m) => Err(m),
        Ok(j) => {
            if step_ok(t, i, j) {
                sx_expr_chain(t, j)
            } else {
                arbitrary()
            }
        },
    }
}

/// Mirror of `parse_bool`: one comparison between two expressions.
pub open spec fn sx_bool(t: Seq<TokenV>, i: int) -> Result<int, Seq<char>>
    decreases toks_rem(t, i), 6int,
{
    if i >= t.len() {
        Err("Unexpected end of input"@)
    } else {
        match sx_expression(t, i) {
            Err(m) => Err(m),
            Ok(j) => {
                if !step_ok(t, i, j) {
                    arbitrary()
                } else if t[j] is Less || t[j] is LessEqual || t[j] is Greater
                    || t[j] is GreaterEqual || t[j] is Equality || t[j] is NotEqual {
                    sx_expression(t, j + 1)
                } else {
                    Err("Parser: Boolean expression expects a comparison operator"@)
                }
            },
        }
    }
}

/// Mirror of `parse_declaration`: one parameter declaration.
pub open spec fn sx_param_decl(t: Seq<TokenV>, i: int) -> Result<int, Seq<char>>
    decreases toks_rem(t, i), 8int,
{
    if i >= t.len() {
        Err("Unexpected end of input"@)
    } else if !(t[i] is Int) {
        Err("Parser: Function declaration statements must begin with 'int' keyword"@)
    } else {
        let j = if t[i + 1] is LeftBracket {
            i + 4
        } else {
            i + 1
        };
        if t[i + 1] is LeftBracket && !(t[i + 2] is Num) {
            Err("Parser: Function declarations of arrays must have Type [Num] Ident form"@)
        } else if t[i + 1] is LeftBracket && !(t[i + 3] is RightBracket) {
            Err(
                "Parser: Function declarations of arrays in Type [Num] Ident form require a closing bracket"@,
            )
        } else {
            if t[j] is Ident {
                Ok(j + 1)
            } else {
                Err("Parser: Function declarations must have an identifier"@)
            }
        }
    }
}

/// Mirror of the parameter loop in `parse_function`: after a declaration
/// without a comma the loop simply comes around again, so two parameters
/// need not be separated by a comma for the syntax check to accept them.
pub open spec fn sx_params(t: Seq<TokenV>, i: int) -> Result<int, Seq<char>>
    decreases toks_rem(t, i), 9int,
{
    if i >= t.len() {
        arbitrary()
    } else if t[i] is RightParen {
        Ok(i)
    } else {
        match sx_param_decl(t, i) {
            Err(m) => Err(m),
            Ok(j) => {
                if !step_ok(t, i, j) {
                    arbitrary()
                } else if t[j] is Comma {
                    match sx_param_decl(t, j + 1) {
                        Err(m) => Err(m),
                        Ok(k) => {
                            if step_ok(t, j, k) {
                                sx_params(t, k)
                            } else {
                                arbitrary()
                            }
                        },
                    }
                } else {
                    sx_params(t, j)
                }
            },
        }
    }
}

/// Mirror of `parse_declaration_statement`: no semantic checks, so a
/// zero array size is accepted here.
pub open spec fn sx_declaration_statement(t: Seq<TokenV>, i: int) -> Result<int, Seq<char>>
    decreases toks_rem(t, i), 8int,
{
    if i >= t.len() {
        Err("Unexpected end of input"@)
    } else if !(t[i] is Int) {
        Err("Parser: Declaration statements must begin with 'int' keyword"@)
    } else {
        let j = if t[i + 1] is LeftBracket {
            i + 4
        } else {
            i + 1
        };
        if t[i + 1] is LeftBracket && !(t[i + 2] is Num) {
            Err("Parser: Declarations of arrays must have Type [Num] Ident form"@)
        } else if t[i + 1] is LeftBracket && !(t[i + 3] is RightBracket) {
            Err("Parser: Declarations of Type [Num] Ident form require a closing bracket"@)
        } else if !(t[j] is Ident) {
            Err("Parser: Declarations must have an identifier"@)
        } else if !(t[j + 1] is Semicolon) {
            Err("Parser: Declarations statements must end with a semicolon"@)
        } else {
            Ok(j + 2)
        }
    }
}

/// Mirror of `parse_assignment_statement`: no declaredness checks.
pub open spec fn sx_assignment_statement(t: Seq<TokenV>, i: int) -> Result<int, Seq<char>>
    decreases toks_rem(t, i), 8int,
{
    if i >= t.len() {
        Err("Unexpected end of input"@)
    } else if !(t[i] is Ident) {
        Err("Parser: Assignment statements must begin with an identifier"@)
    } else if t[i + 1] is LeftBracket {
        match sx_expression(t, i + 2) {
            Err(m) => Err(m),
            Ok(j) => {
                if !step_ok(t, i, j) {
                    arbitrary()
                } else if !(t[j] is RightBracket) {
                    Err("Parser: Array assignments must have a closing bracket ']'"@)
                } else {
                    sx_assignment_tail(t, j + 1)
                }
            },
        }
    } else {
        sx_assignment_tail(t, i + 1)
    }
}

/// Mirror of the tail of an assignment: `= expression ;`.
pub open spec fn sx_assignment_tail(t: Seq<TokenV>, i: int) -> Result<int, Seq<char>>
    decreases toks_rem(t, i), 6int,
{
    if i >= t.len() {
        Err("Unexpected end of input"@)
    } else if !(t[i] is Assign) {
        Err("Parser: Assignment statement is missing the '=' operator"@)
    } else {
        match sx_expression(t, i + 1) {
            Err(m) => Err(m),
            Ok(j) => {
                if !(t[j] is Semicolon) {
                    Err("Parser: Assignment statements must end with a semicolon ';'"@)
                } else {
                    Ok(j + 1)
                }
            },
        }
    }
}

/// Mirror of `parse_return_statement`.
pub open spec fn sx_return_statement(t: Seq<TokenV>, i: int) -> Result<int, Seq<char>>
    decreases toks_rem(t, i), 8int,
{
    if i >= t.len() {
        Err("Unexpected end of input"@)
    } else if !(t[i] is Return) {
        Err("Parser: Return statements must begin with a return keyword"@)
    } else {
        match sx_expression(t, i + 1) {
            Err(m) => Err(m),
            Ok(j) => {
                if !(t[j] is Semicolon) {
                    Err("Parser: Return statements must end with a semicolon"@)
                } else {
                    Ok(j + 1)
                }
            },
        }
    }
}

/// Mirror of `parse_print_statement`.
pub open spec fn sx_print_statement(t: Seq<TokenV>, i: int) -> Result<int, Seq<char>>
    decreases toks_rem(t, i), 8int,
{
    if i >= t.len() {
        Err("Unexpected end of input"@)
    } else if !(t[i] is Print) {
        Err("Parser: Print statements must begin with the 'print' keyword"@)
    } else {
        match sx_expression(t, i + 1) {
            Err(m) => Err(m),
            Ok(j) => {
                if !(t[j] is Semicolon) {
                    Err("Parser: Print statements must end with a semicolon ';'"@)
                } else {
                    Ok(j + 1)
                }
            },
        }
    }
}

/// Mirror of `parse_read_statement`.
pub open spec fn sx_read_statement(t: Seq<TokenV>, i: int) -> Result<int, Seq<char>>
    decreases toks_rem(t, i), 8int,
{
    if i >= t.len() {
        Err("Unexpected end of input"@)
    } else if !(t[i] is Read) {
        Err("Parser: Read statements must begin with the 'read' keyword"@)
    } else {
        match sx_expression(t, i + 1) {
            Err(m) => Err(m),
            Ok(j) => {
                if !(t[j] is Semicolon) {
                    Err("Parser: Read statements must end with a semicolon ';'"@)
                } else {
                    Ok(j + 1)
                }
            },
        }
    }
}

/// Mirror of `parse_break_statement`: the syntax check allows `break`
/// anywhere.
pub open spec fn sx_break_statement(t: Seq<TokenV>, i: int) -> Result<int, Seq<char>>
    decreases toks_rem(t, i), 8int,
{
    if i >= t.len() {
        Err("Unexpected end of input"@)
    } else if !(t[i] is Break) {
        Err("Parser: Expected 'break' keyword"@)
    } else if !(t[i + 1] is Semicolon) {
        Err("Parser: Break statements must end with a semicolon ';'"@)
    } else {
        Ok(i + 2)
    }
}

/// Mirror of `parse_continue_statement`.
pub open spec fn sx_continue_statement(t: Seq<TokenV>, i: int) -> Result<int, Seq<char>>
    decreases toks_rem(t, i), 8int,
{
    if i >= t.len() {
        Err("Unexpected end of input"@)
    } else if !(t[i] is Continue) {
        Err("Parser: Expected 'continue' keyword"@)
    } else if !(t[i + 1] is Semicolon) {
        Err("Parser: Continue statements must end with a semicolon ';'"@)
    } else {
        Ok(i + 2)
    }
}

/// Mirror of the statement loop that runs until a closing brace.
pub open spec fn sx_stmt_seq(t: Seq<TokenV>, i: int) -> Result<int, Seq<char>>
    decreases toks_rem(t, i), 10int,
{
    if i >= t.len() {
        arbitrary()
    } else if t[i] is RightCurly {
        Ok(i)
    } else {
        match sx_statement(t, i) {
            Err(m) => Err(m),
            Ok(j) => {
                if step_ok(t, i, j) {
                    sx_stmt_seq(t, j)
                } else {
                    arbitrary()
                }
            },
        }
    }
}

/// Mirror of `parse_while_statement`.
pub open spec fn sx_while_statement(t: Seq<TokenV>, i: int) -> Result<int, Seq<char>>
    decreases toks_rem(t, i), 8int,
{
    if i >= t.len() {
        Err("Unexpected end of input"@)
    } else if !(t[i] is While) {
        Err("Parser: Expected 'while' keyword"@)
    } else {
        match sx_bool(t, i + 1) {
            Err(m) => Err(m),
            Ok(j) => {
                if !step_ok(t, i, j) {
                    arbitrary()
                } else if !(t[j] is LeftCurly) {
                    Err("Parser: While statement execution code must begin with '{'"@)
                } else {
                    match sx_stmt_seq(t, j + 1) {
                        Err(m) => Err(m),
                        Ok(k) => Ok(k + 1),
                    }
                }
            },
        }
    }
}

/// Mirror of `parse_if_statement`, with its optional else block.
pub open spec fn sx_if_statement(t: Seq<TokenV>, i: int) -> Result<int, Seq<char>>
    decreases toks_rem(t, i), 8int,
{
    if i >= t.len() {
        Err("Unexpected end of input"@)
    } else if !(t[i] is If) {
        Err("Parser: If statement expects 'if' keyword"@)
    } else {
        match sx_bool(t, i + 1) {
            Err(m) => Err(m),
            Ok(j) => {
                if !step_ok(t, i, j) {
                    arbitrary()
                } else if !(t[j] is LeftCurly) {
                    Err("Parser: If statement execution code must begin with '{'"@)
                } else {
                    match sx_stmt_seq(t, j + 1) {
                        Err(m) => Err(m),
                        Ok(k) => {
                            if !step_ok(t, i, k) {
                                arbitrary()
                            } else if k + 1 < t.len() && t[k + 1] is Else {
                                if !(t[k + 2] is LeftCurly) {
                                    Err(
                                        "Parser: Else statement execution code must begin with '{'"@,
                                    )
                                } else {
                                    match sx_stmt_seq(t, k + 3) {
                                        Err(m) => Err(m),
                                        Ok(p) => Ok(p + 1),
                                    }
                                }
                            } else {
                                Ok(k + 1)
                            }
                        },
                    }
                }
            },
        }
    }
}

/// Mirror of `parse_statement`: dispatch on the leading token.
pub open spec fn sx_statement(t: Seq<TokenV>, i: int) -> Result<int, Seq<char>>
    decreases toks_rem(t, i), 9int,
{
    if i >= t.len() {
        Err("Unexpected end of input"@)
    } else {
        match t[i] {
            TokenV::Int => sx_declaration_statement(t, i),
            TokenV::Ident(_) => sx_assignment_statement(t, i),
            TokenV::Return => sx_return_statement(t, i),
            TokenV::Print => sx_print_statement(t, i),
            TokenV::Read => sx_read_statement(t, i),
            TokenV::If => sx_if_statement(t, i),
            TokenV::While => sx_while_statement(t, i),
            TokenV::Break => sx_break_statement(t, i),
            TokenV::Continue => sx_continue_statement(t, i),
            _ => Err("Parser: Invalid statement"@),
        }
    }
}

/// Mirror of `parse_function`.
pub open spec fn sx_function(t: Seq<TokenV>, i: int) -> Result<int, Seq<char>>
    decreases toks_rem(t, i), 11int,
{
    if i >= t.len() {
        Err("Unexpected end of input"@)
    } else if !(t[i] is Func) {
        Err("Parser: Functions must begin with 'func'"@)
    } else if !(t[i + 1] is Ident) {
        Err("Parser: Functions must have a function identifier"@)
    } else if !(t[i + 2] is LeftParen) {
        Err("Parser: Funtion expects '('"@)
    } else {
        match sx_params(t, i + 3) {
            Err(m) => Err(m),
            Ok(j) => {
                if !(t[j] is RightParen) {
                    Err("Parser: Function expects ')'"@)
                } else if !(t[j + 1] is LeftCurly) {
                    Err("Parser: Function expects '{'"@)
                } else {
                    if !step_ok(t, i, j + 2) {
                        arbitrary()
                    } else {
                        match sx_stmt_seq(t, j + 2) {
                            Err(m) => Err(m),
                            Ok(k) => Ok(k + 1),
                        }
                    }
                }
            },
        }
    }
}

/// Mirror of the function loop in `parse_program`.
pub open spec fn sx_functions(t: Seq<TokenV>, i: int) -> Result<int, Seq<char>>
    decreases toks_rem(t, i), 12int,
{
    if i >= t.len() {
        arbitrary()
    } else if t[i] is End {
        Ok(i)
    } else {
        match sx_function(t, i) {
            Err(m) => Err(m),
            Ok(j) => {
                if step_ok(t, i, j) {
                    sx_functions(t, j)
                } else {
                    arbitrary()
                }
            },
        }
    }
}

// ---------------------------------------------------------------------
// The executable syntax check
// ---------------------------------------------------------------------

/// The executable result is exactly the mirror's: the same success or
/// failure and message, and on success the mirror's stop position.
pub open spec fn sx_result(m: Result<int, Seq<char>>, r: Result<(), String>, i1: int) -> bool {
    match r {
        Ok(u) => m is Ok && m->Ok_0 == i1,
        Err(e) => m is Err && e@ == m->Err_0,
    }
}

/// Whether the token at `index` is the `End` sentinel.
pub fn at_end(tokens: &Vec<Token>, index: usize) -> (r: bool)
    requires
        index < tokens@.len(),
    ensures
        r == (token_views(tokens@)[index as int] is End),
{
    match &tokens[index] {
        Token::End => true,
        _ => false,
    }
}

/// Checks a term: a variable, a call, an array access, a number, or a
/// parenthesized expression.
#[verifier::loop_isolation(false)]
pub fn parse_term(tokens: &Vec<Token>, index: &mut usize) -> (r: Result<(), String>)
    requires
        end_terminated(token_views(tokens@)),
        *old(index) < tokens@.len(),
    ensures
        sx_result(sx_term(token_views(tokens@), *old(index) as int), r, *final(index) as int),
        r is Ok ==> *old(index) < *final(index) < tokens@.len(),
    decreases tokens@.len() - *old(index), 0int,
{
    proof {
        lemma_vec_len_bound(tokens);
    }
    let ghost t = token_views(tokens@);
    let ghost i0 = *index as int;
    let i = *index;
    match &tokens[i] {
        Token::Ident(_) => {
            proof {
                lemma_not_end_bound(t, i0);
            }
            if matches!(&tokens[i + 1], Token::LeftParen) {
                proof {
                    lemma_not_end_bound(t, i0 + 1);
                }
                *index = i + 2;
                let mut parsing = true;
                while parsing
                    invariant
                        *index < tokens@.len(),
                        i0 + 2 <= *index,
                        parsing ==> sx_call_args(t, i0 + 2) == sx_call_args(t, *index as int),
                        !parsing ==> sx_call_args(t, i0 + 2) == Ok::<int, Seq<char>>(
                            *index as int,
                        ),
                    decreases tokens@.len() - *index, (if parsing { 1int } else { 0int }),
                {
                    if matches!(&tokens[*index], Token::RightParen) {
                        parsing = false;
                    } else {
                        match parse_expression(tokens, index) {
                            Err(m) => {
                                return Err(m);
                            },
                            Ok(_) => {},
                        }
                        if matches!(&tokens[*index], Token::Comma) {
                            proof {
                                lemma_not_end_bound(t, *index as int);
                            }
                            *index = *index + 1;
                        } else {
                            parsing = false;
                        }
                    }
                }
                match &tokens[*index] {
                    Token::RightParen => {
                        proof {
                            lemma_not_end_bound(t, *index as int);
                        }
                        *index = *index + 1;
                        Ok(())
                    },
                    _ => Err(String::from_str("Parser: Function call expects closing parenthesis")),
                }
            } else if matches!(&tokens[i + 1], Token::LeftBracket) {
                proof {
                    lemma_not_end_bound(t, i0 + 1);
                }
                *index = i + 2;
                match parse_expression(tokens, index) {
                    Err(m) => {
                        return Err(m);
                    },
                    Ok(_) => {},
                }
                match &tokens[*index] {
                    Token::RightBracket => {
                        proof {
                            lemma_not_end_bound(t, *index as int);
                        }
                        *index = *index + 1;
                        Ok(())
                    },
                    _ => Err(String::from_str("Parser: Array access expects closing bracket ']'")),
                }
            } else {
                *index = i + 1;
                Ok(())
            }
        },
        Token::Num(_) => {
            proof {
                lemma_not_end_bound(t, i0);
            }
            *index = i + 1;
            Ok(())
        },
        Token::LeftParen => {
            proof {
                lemma_not_end_bound(t, i0);
            }
            *index = i + 1;
            match parse_expression(tokens, index) {
                Err(m) => {
                    return Err(m);
                },
                Ok(_) => {},
            }
            match &tokens[*index] {
                Token::RightParen => {
                    proof {
                        lemma_not_end_bound(t, *index as int);
                    }
                    *index = *index + 1;
                    Ok(())
                },
                _ => Err(String::from_str("Parser: Expression expects closing parenthesis ')'")),
            }
        },
        _ => Err(String::from_str("Parser: Unexpected token, expected a term")),
    }
}

/// Checks a multiplicative chain: `term (('*' | '/' | '%') term)*`.
#[verifier::loop_isolation(false)]
pub fn parse_multiply_expression(tokens: &Vec<Token>, index: &mut usize) -> (r: Result<(), String>)
    requires
        end_terminated(token_views(tokens@)),
        *old(index) < tokens@.len(),
    ensures
        sx_result(sx_mult(token_views(tokens@), *old(index) as int), r, *final(index) as int),
        r is Ok ==> *old(index) < *final(index) < tokens@.len(),
    decreases tokens@.len() - *old(index), 3int,
{
    proof {
        lemma_vec_len_bound(tokens);
    }
    let ghost t = token_views(tokens@);
    let ghost i0 = *index as int;
    match parse_term(tokens, index) {
        Err(m) => {
            return Err(m);
        },
        Ok(_) => {},
    }
    let mut parsing = true;
    while parsing
        invariant
            *index < tokens@.len(),
            i0 < *index,
            parsing ==> sx_mult(t, i0) == sx_mult_chain(t, *index as int),
            !parsing ==> sx_mult(t, i0) == Ok::<int, Seq<char>>(*index as int),
        decreases tokens@.len() - *index, (if parsing { 1int } else { 0int }),
    {
        let is_op = matches!(
            &tokens[*index],
            Token::Multiply | Token::Divide | Token::Modulus
        );
        if is_op {
            proof {
                lemma_not_end_bound(t, *index as int);
            }
            *index = *index + 1;
            match parse_term(tokens, index) {
                Err(m) => {
                    return Err(m);
                },
                Ok(_) => {},
            }
        } else {
            parsing = false;
        }
    }
    Ok(())
}

/// Checks an additive chain: `multiplicative (('+' | '-') multiplicative)*`.
#[verifier::loop_isolation(false)]
pub fn parse_expression(tokens: &Vec<Token>, index: &mut usize) -> (r: Result<(), String>)
    requires
        end_terminated(token_views(tokens@)),
        *old(index) < tokens@.len(),
    ensures
        sx_result(sx_expression(token_views(tokens@), *old(index) as int), r, *final(index) as int),
        r is Ok ==> *old(index) < *final(index) < tokens@.len(),
    decreases tokens@.len() - *old(index), 5int,
{
    proof {
        lemma_vec_len_bound(tokens);
    }
    let ghost t = token_views(tokens@);
    let ghost i0 = *index as int;
    match parse_multiply_expression(tokens, index) {
        Err(m) => {
            return Err(m);
        },
        Ok(_) => {},
    }
    let mut parsing = true;
    while parsing
        invariant
            *index < tokens@.len(),
            i0 < *index,
            parsing ==> sx_expression(t, i0) == sx_expr_chain(t, *index as int),
            !parsing ==> sx_expression(t, i0) == Ok::<int, Seq<char>>(*index as int),
        decreases tokens@.len() - *index, (if parsing { 1int } else { 0int }),
    {
        let is_op = matches!(&tokens[*index], Token::Plus | Token::Subtract);
        if is_op {
            proof {
                lemma_not_end_bound(t, *index as int);
            }
            *index = *index + 1;
            match parse_multiply_expression(tokens, index) {
                Err(m) => {
                    return Err(m);
                },
                Ok(_) => {},
            }
        } else {
            parsing = false;
        }
    }
    Ok(())
}

/// Checks a boolean condition: two expressions joined by exactly one
/// comparison operator.
#[verifier::loop_isolation(false)]
pub fn parse_bool(tokens: &Vec<Token>, index: &mut usize) -> (r: Result<(), String>)
    requires
        end_terminated(token_views(tokens@)),
        *old(index) < tokens@.len(),
    ensures
        sx_result(sx_bool(token_views(tokens@), *old(index) as int), r, *final(index) as int),
        r is Ok ==> *old(index) < *final(index) < tokens@.len(),
    decreases tokens@.len() - *old(index), 6int,
{
    proof {
        lemma_vec_len_bound(tokens);
    }
    let ghost t = token_views(tokens@);
    match parse_expression(tokens, index) {
        Err(m) => {
            return Err(m);
        },
        Ok(_) => {},
    }
    let is_cmp = matches!(
        &tokens[*index],
        Token::Less | Token::LessEqual | Token::Greater | Token::GreaterEqual | Token::Equality
            | Token::NotEqual
    );
    if !is_cmp {
        return Err(String::from_str("Parser: Boolean expression expects a comparison operator"));
    }
    proof {
        lemma_not_end_bound(t, *index as int);
    }
    *index = *index + 1;
    parse_expression(tokens, index)
}

/// Checks statements until a closing brace; the brace is not consumed.
#[verifier::loop_isolation(false)]
fn parse_stmt_seq(tokens: &Vec<Token>, index: &mut usize) -> (r: Result<(), String>)
    requires
        end_terminated(token_views(tokens@)),
        *old(index) < tokens@.len(),
    ensures
        sx_result(sx_stmt_seq(token_views(tokens@), *old(index) as int), r, *final(index) as int),
        r is Ok ==> *old(index) <= *final(index) < tokens@.len(),
        r is Ok ==> token_views(tokens@)[*final(index) as int] is RightCurly,
    decreases tokens@.len() - *old(index), 10int,
{
    proof {
        lemma_vec_len_bound(tokens);
    }
    let ghost t = token_views(tokens@);
    let ghost i0 = *index as int;
    let mut parsing = true;
    while parsing
        invariant
            *index < tokens@.len(),
            i0 <= *index,
            parsing ==> sx_stmt_seq(t, i0) == sx_stmt_seq(t, *index as int),
            !parsing ==> t[*index as int] is RightCurly && sx_stmt_seq(t, i0) == Ok::<
                int,
                Seq<char>,
            >(*index as int),
        decreases tokens@.len() - *index, (if parsing { 1int } else { 0int }),
    {
        if matches!(&tokens[*index], Token::RightCurly) {
            parsing = false;
        } else {
            match parse_statement(tokens, index) {
                Err(m) => {
                    return Err(m);
                },
                Ok(_) => {},
            }
        }
    }
    Ok(())
}

/// Checks one statement, dispatching on its leading token.
pub fn parse_statement(tokens: &Vec<Token>, index: &mut usize) -> (r: Result<(), String>)
    requires
        end_terminated(token_views(tokens@)),
        *old(index) < tokens@.len(),
    ensures
        sx_result(sx_statement(token_views(tokens@), *old(index) as int), r, *final(index) as int),
        r is Ok ==> *old(index) < *final(index) < tokens@.len(),
    decreases tokens@.len() - *old(index), 9int,
{
    match &tokens[*index] {
        Token::Int => parse_declaration_statement(tokens, index),
        Token::Ident(_) => parse_assignment_statement(tokens, index),
        Token::Return => parse_return_statement(tokens, index),
        Token::Print => parse_print_statement(tokens, index),
        Token::Read => parse_read_statement(tokens, index),
        Token::If => parse_if_statement(tokens, index),
        Token::While => parse_while_statement(tokens, index),
        Token::Break => parse_break_statement(tokens, index),
        Token::Continue => parse_continue_statement(tokens, index),
        _ => Err(String::from_str("Parser: Invalid statement")),
    }
}

/// Checks a declaration statement: `int x;` or `int[N] x;`.
pub fn parse_declaration_statement(tokens: &Vec<Token>, index: &mut usize) -> (r: Result<
    (),
    String,
>)
    requires
        end_terminated(token_views(tokens@)),
        *old(index) < tokens@.len(),
    ensures
        sx_result(
            sx_declaration_statement(token_views(tokens@), *old(index) as int),
            r,
            *final(index) as int,
        ),
        r is Ok ==> *old(index) < *final(index) < tokens@.len(),
{
    proof {
        lemma_vec_len_bound(tokens);
    }
    let ghost t = token_views(tokens@);
    let ghost i0 = *index as int;
    let i = *index;
    match &tokens[i] {
        Token::Int => {},
        _ => {
            return Err(String::from_str("Parser: Declaration statements must begin with 'int' keyword"));
        },
    }
    proof {
        lemma_not_end_bound(t, i0);
    }
    let mut j = i + 1;
    if matches!(&tokens[j], Token::LeftBracket) {
        proof {
            lemma_not_end_bound(t, i0 + 1);
        }
        match &tokens[j + 1] {
            Token::Num(_) => {},
            _ => {
                return Err(
                    String::from_str("Parser: Declarations of arrays must have Type [Num] Ident form"),
                );
            },
        }
        proof {
            lemma_not_end_bound(t, i0 + 2);
        }
        match &tokens[j + 2] {
            Token::RightBracket => {},
            _ => {
                return Err(
                    String::from_str(
                        "Parser: Declarations of Type [Num] Ident form require a closing bracket",
                    ),
                );
            },
        }
        proof {
            lemma_not_end_bound(t, i0 + 3);
        }
        j = j + 3;
    }
    match &tokens[j] {
        Token::Ident(_) => {},
        _ => {
            return Err(String::from_str("Parser: Declarations must have an identifier"));
        },
    }
    proof {
        lemma_not_end_bound(t, j as int);
    }
    match &tokens[j + 1] {
        Token::Semicolon => {},
        _ => {
            return Err(String::from_str("Parser: Declarations statements must end with a semicolon"));
        },
    }
    proof {
        lemma_not_end_bound(t, j + 1);
    }
    *index = j + 2;
    Ok(())
}

/// Checks an assignment: `x = e;` or `a[e1] = e2;`.
pub fn parse_assignment_statement(tokens: &Vec<Token>, index: &mut usize) -> (r: Result<
    (),
    String,
>)
    requires
        end_terminated(token_views(tokens@)),
        *old(index) < tokens@.len(),
    ensures
        sx_result(
            sx_assignment_statement(token_views(tokens@), *old(index) as int),
            r,
            *final(index) as int,
        ),
        r is Ok ==> *old(index) < *final(index) < tokens@.len(),
{
    proof {
        lemma_vec_len_bound(tokens);
    }
    let ghost t = token_views(tokens@);
    let ghost i0 = *index as int;
    let i = *index;
    match &tokens[i] {
        Token::Ident(_) => {},
        _ => {
            return Err(String::from_str("Parser: Assignment statements must begin with an identifier"));
        },
    }
    proof {
        lemma_not_end_bound(t, i0);
    }
    if matches!(&tokens[i + 1], Token::LeftBracket) {
        proof {
            lemma_not_end_bound(t, i0 + 1);
        }
        *index = i + 2;
        match parse_expression(tokens, index) {
            Err(m) => {
                return Err(m);
            },
            Ok(_) => {},
        }
        match &tokens[*index] {
            Token::RightBracket => {},
            _ => {
                return Err(
                    String::from_str("Parser: Array assignments must have a closing bracket ']'"),
                );
            },
        }
        proof {
            lemma_not_end_bound(t, *index as int);
        }
        *index = *index + 1;
    } else {
        *index = i + 1;
    }
    match &tokens[*index] {
        Token::Assign => {},
        _ => {
            return Err(String::from_str("Parser: Assignment statement is missing the '=' operator"));
        },
    }
    proof {
        lemma_not_end_bound(t, *index as int);
    }
    *index = *index + 1;
    match parse_expression(tokens, index) {
        Err(m) => {
            return Err(m);
        },
        Ok(_) => {},
    }
    match &tokens[*index] {
        Token::Semicolon => {},
        _ => {
            return Err(String::from_str("Parser: Assignment statements must end with a semicolon ';'"));
        },
    }
    proof {
        lemma_not_end_bound(t, *index as int);
    }
    *index = *index + 1;
    Ok(())
}

/// Checks `return e;`.
fn parse_return_statement(tokens: &Vec<Token>, index: &mut usize) -> (r: Result<(), String>)
    requires
        end_terminated(token_views(tokens@)),
        *old(index) < tokens@.len(),
    ensures
        sx_result(
            sx_return_statement(token_views(tokens@), *old(index) as int),
            r,
            *final(index) as int,
        ),
        r is Ok ==> *old(index) < *final(index) < tokens@.len(),
{
    proof {
        lemma_vec_len_bound(tokens);
    }
    let ghost t = token_views(tokens@);
    match &tokens[*index] {
        Token::Return => {},
        _ => {
            return Err(String::from_str("Parser: Return statements must begin with a return keyword"));
        },
    }
    proof {
        lemma_not_end_bound(t, *index as int);
    }
    *index = *index + 1;
    match parse_expression(tokens, index) {
        Err(m) => {
            return Err(m);
        },
        Ok(_) => {},
    }
    match &tokens[*index] {
        Token::Semicolon => {},
        _ => {
            return Err(String::from_str("Parser: Return statements must end with a semicolon"));
        },
    }
    proof {
        lemma_not_end_bound(t, *index as int);
    }
    *index = *index + 1;
    Ok(())
}

/// Checks `print e;`.
pub fn parse_print_statement(tokens: &Vec<Token>, index: &mut usize) -> (r: Result<(), String>)
    requires
        end_terminated(token_views(tokens@)),
        *old(index) < tokens@.len(),
    ensures
        sx_result(
            sx_print_statement(token_views(tokens@), *old(index) as int),
            r,
            *final(index) as int,
        ),
        r is Ok ==> *old(index) < *final(index) < tokens@.len(),
{
    proof {
        lemma_vec_len_bound(tokens);
    }
    let ghost t = token_views(tokens@);
    match &tokens[*index] {
        Token::Print => {},
        _ => {
            return Err(String::from_str("Parser: Print statements must begin with the 'print' keyword"));
        },
    }
    proof {
        lemma_not_end_bound(t, *index as int);
    }
    *index = *index + 1;
    match parse_expression(tokens, index) {
        Err(m) => {
            return Err(m);
        },
        Ok(_) => {},
    }
    match &tokens[*index] {
        Token::Semicolon => {},
        _ => {
            return Err(String::from_str("Parser: Print statements must end with a semicolon ';'"));
        },
    }
    proof {
        lemma_not_end_bound(t, *index as int);
    }
    *index = *index + 1;
    Ok(())
}

/// Checks `read e;`.
pub fn parse_read_statement(tokens: &Vec<Token>, index: &mut usize) -> (r: Result<(), String>)
    requires
        end_terminated(token_views(tokens@)),
        *old(index) < tokens@.len(),
    ensures
        sx_result(
            sx_read_statement(token_views(tokens@), *old(index) as int),
            r,
            *final(index) as int,
        ),
        r is Ok ==> *old(index) < *final(index) < tokens@.len(),
{
    proof {
        lemma_vec_len_bound(tokens);
    }
    let ghost t = token_views(tokens@);
    match &tokens[*index] {
        Token::Read => {},
        _ => {
            return Err(String::from_str("Parser: Read statements must begin with the 'read' keyword"));
        },
    }
    proof {
        lemma_not_end_bound(t, *index as int);
    }
    *index = *index + 1;
    match parse_expression(tokens, index) {
        Err(m) => {
            return Err(m);
        },
        Ok(_) => {},
    }
    match &tokens[*index] {
        Token::Semicolon => {},
        _ => {
            return Err(String::from_str("Parser: Read statements must end with a semicolon ';'"));
        },
    }
    proof {
        lemma_not_end_bound(t, *index as int);
    }
    *index = *index + 1;
    Ok(())
}

/// Checks `break;`. The syntax check allows it anywhere.
pub fn parse_break_statement(tokens: &Vec<Token>, index: &mut usize) -> (r: Result<(), String>)
    requires
        end_terminated(token_views(tokens@)),
        *old(index) < tokens@.len(),
    ensures
        sx_result(
            sx_break_statement(token_views(tokens@), *old(index) as int),
            r,
            *final(index) as int,
        ),
        r is Ok ==> *old(index) < *final(index) < tokens@.len(),
{
    proof {
        lemma_vec_len_bound(tokens);
    }
    let ghost t = token_views(tokens@);
    let i = *index;
    match &tokens[i] {
        Token::Break => {},
        _ => {
            return Err(String::from_str("Parser: Expected 'break' keyword"));
        },
    }
    proof {
        lemma_not_end_bound(t, i as int);
    }
    match &tokens[i + 1] {
        Token::Semicolon => {},
        _ => {
            return Err(String::from_str("Parser: Break statements must end with a semicolon ';'"));
        },
    }
    proof {
        lemma_not_end_bound(t, i + 1);
    }
    *index = i + 2;
    Ok(())
}

/// Checks `continue;`. The syntax check allows it anywhere.
pub fn parse_continue_statement(tokens: &Vec<Token>, index: &mut usize) -> (r: Result<(), String>)
    requires
        end_terminated(token_views(tokens@)),
        *old(index) < tokens@.len(),
    ensures
        sx_result(
            sx_continue_statement(token_views(tokens@), *old(index) as int),
            r,
            *final(index) as int,
        ),
        r is Ok ==> *old(index) < *final(index) < tokens@.len(),
{
    proof {
        lemma_vec_len_bound(tokens);
    }
    let ghost t = token_views(tokens@);
    let i = *index;
    match &tokens[i] {
        Token::Continue => {},
        _ => {
            return Err(String::from_str("Parser: Expected 'continue' keyword"));
        },
    }
    proof {
        lemma_not_end_bound(t, i as int);
    }
    match &tokens[i + 1] {
        Token::Semicolon => {},
        _ => {
            return Err(String::from_str("Parser: Continue statements must end with a semicolon ';'"));
        },
    }
    proof {
        lemma_not_end_bound(t, i + 1);
    }
    *index = i + 2;
    Ok(())
}

/// Checks a while loop: `while bool { statements }`.
pub fn parse_while_statement(tokens: &Vec<Token>, index: &mut usize) -> (r: Result<(), String>)
    requires
        end_terminated(token_views(tokens@)),
        *old(index) < tokens@.len(),
    ensures
        sx_result(
            sx_while_statement(token_views(tokens@), *old(index) as int),
            r,
            *final(index) as int,
        ),
        r is Ok ==> *old(index) < *final(index) < tokens@.len(),
    decreases tokens@.len() - *old(index), 8int,
{
    proof {
        lemma_vec_len_bound(tokens);
    }
    let ghost t = token_views(tokens@);
    match &tokens[*index] {
        Token::While => {},
        _ => {
            return Err(String::from_str("Parser: Expected 'while' keyword"));
        },
    }
    proof {
        lemma_not_end_bound(t, *index as int);
    }
    *index = *index + 1;
    match parse_bool(tokens, index) {
        Err(m) => {
            return Err(m);
        },
        Ok(_) => {},
    }
    match &tokens[*index] {
        Token::LeftCurly => {},
        _ => {
            return Err(String::from_str("Parser: While statement execution code must begin with '{'"));
        },
    }
    proof {
        lemma_not_end_bound(t, *index as int);
    }
    *index = *index + 1;
    match parse_stmt_seq(tokens, index) {
        Err(m) => {
            return Err(m);
        },
        Ok(_) => {},
    }
    match &tokens[*index] {
        Token::RightCurly => {},
        _ => {
            return Err(String::from_str("Parser: While statement expects '}'"));
        },
    }
    proof {
        lemma_not_end_bound(t, *index as int);
    }
    *index = *index + 1;
    Ok(())
}

/// Checks an if statement with an optional else block.
pub fn parse_if_statement(tokens: &Vec<Token>, index: &mut usize) -> (r: Result<(), String>)
    requires
        end_terminated(token_views(tokens@)),
        *old(index) < tokens@.len(),
    ensures
        sx_result(
            sx_if_statement(token_views(tokens@), *old(index) as int),
            r,
            *final(index) as int,
        ),
        r is Ok ==> *old(index) < *final(index) < tokens@.len(),
    decreases tokens@.len() - *old(index), 8int,
{
    proof {
        lemma_vec_len_bound(tokens);
    }
    let ghost t = token_views(tokens@);
    match &tokens[*index] {
        Token::If => {},
        _ => {
            return Err(String::from_str("Parser: If statement expects 'if' keyword"));
        },
    }
    proof {
        lemma_not_end_bound(t, *index as int);
    }
    *index = *index + 1;
    match parse_bool(tokens, index) {
        Err(m) => {
            return Err(m);
        },
        Ok(_) => {},
    }
    match &tokens[*index] {
        Token::LeftCurly => {},
        _ => {
            return Err(String::from_str("Parser: If statement execution code must begin with '{'"));
        },
    }
    proof {
        lemma_not_end_bound(t, *index as int);
    }
    *index = *index + 1;
    match parse_stmt_seq(tokens, index) {
        Err(m) => {
            return Err(m);
        },
        Ok(_) => {},
    }
    match &tokens[*index] {
        Token::RightCurly => {},
        _ => {
            return Err(String::from_str("Parser: If statement expects '}'"));
        },
    }
    proof {
        lemma_not_end_bound(t, *index as int);
    }
    *index = *index + 1;
    if *index < tokens.len() && matches!(&tokens[*index], Token::Else) {
        proof {
            lemma_not_end_bound(t, *index as int);
        }
        *index = *index + 1;
        match &tokens[*index] {
            Token::LeftCurly => {},
            _ => {
                return Err(
                    String::from_str("Parser: Else statement execution code must begin with '{'"),
                );
            },
        }
        proof {
            lemma_not_end_bound(t, *index as int);
        }
        *index = *index + 1;
        match parse_stmt_seq(tokens, index) {
            Err(m) => {
                return Err(m);
            },
            Ok(_) => {},
        }
        match &tokens[*index] {
            Token::RightCurly => {},
            _ => {
                return Err(String::from_str("Parser: Else statement expects '}' after else block"));
            },
        }
        proof {
            lemma_not_end_bound(t, *index as int);
        }
        *index = *index + 1;
        Ok(())
    } else {
        Ok(())
    }
}

/// Checks one parameter declaration in a function header.
pub fn parse_declaration(tokens: &Vec<Token>, index: &mut usize) -> (r: Result<(), String>)
    requires
        end_terminated(token_views(tokens@)),
        *old(index) < tokens@.len(),
    ensures
        sx_result(sx_param_decl(token_views(tokens@), *old(index) as int), r, *final(index) as int),
        r is Ok ==> *old(index) < *final(index) < tokens@.len(),
{
    proof {
        lemma_vec_len_bound(tokens);
    }
    let ghost t = token_views(tokens@);
    let ghost i0 = *index as int;
    let i = *index;
    match &tokens[i] {
        Token::Int => {},
        _ => {
            return Err(
                String::from_str("Parser: Function declaration statements must begin with 'int' keyword"),
            );
        },
    }
    proof {
        lemma_not_end_bound(t, i0);
    }
    let mut j = i + 1;
    if matches!(&tokens[j], Token::LeftBracket) {
        proof {
            lemma_not_end_bound(t, i0 + 1);
        }
        match &tokens[j + 1] {
            Token::Num(_) => {},
            _ => {
                return Err(
                    String::from_str(
                        "Parser: Function declarations of arrays must have Type [Num] Ident form",
                    ),
                );
            },
        }
        proof {
            lemma_not_end_bound(t, i0 + 2);
        }
        match &tokens[j + 2] {
            Token::RightBracket => {},
            _ => {
                return Err(
                    String::from_str(
                        "Parser: Function declarations of arrays in Type [Num] Ident form require a closing bracket",
                    ),
                );
            },
        }
        proof {
            lemma_not_end_bound(t, i0 + 3);
        }
        j = j + 3;
    }
    match &tokens[j] {
        Token::Ident(_) => {},
        _ => {
            return Err(String::from_str("Parser: Function declarations must have an identifier"));
        },
    }
    proof {
        lemma_not_end_bound(t, j as int);
    }
    *index = j + 1;
    Ok(())
}

/// Checks one function: `func name ( params ) { statements }`.
#[verifier::loop_isolation(false)]
pub fn parse_function(tokens: &Vec<Token>, index: &mut usize) -> (r: Result<(), String>)
    requires
        end_terminated(token_views(tokens@)),
        *old(index) < tokens@.len(),
    ensures
        sx_result(sx_function(token_views(tokens@), *old(index) as int), r, *final(index) as int),
        r is Ok ==> *old(index) < *final(index) < tokens@.len(),
{
    proof {
        lemma_vec_len_bound(tokens);
    }
    let ghost t = token_views(tokens@);
    let ghost i0 = *index as int;
    let i = *index;
    match &tokens[i] {
        Token::Func => {},
        _ => {
            return Err(String::from_str("Parser: Functions must begin with 'func'"));
        },
    }
    proof {
        lemma_not_end_bound(t, i0);
    }
    match &tokens[i + 1] {
        Token::Ident(_) => {},
        _ => {
            return Err(String::from_str("Parser: Functions must have a function identifier"));
        },
    }
    proof {
        lemma_not_end_bound(t, i0 + 1);
    }
    match &tokens[i + 2] {
        Token::LeftParen => {},
        _ => {
            return Err(String::from_str("Parser: Funtion expects '('"));
        },
    }
    proof {
        lemma_not_end_bound(t, i0 + 2);
    }
    *index = i + 3;
    let mut parsing = true;
    while parsing
        invariant
            *index < tokens@.len(),
            i0 + 3 <= *index,
            parsing ==> sx_params(t, i0 + 3) == sx_params(t, *index as int),
            !parsing ==> sx_params(t, i0 + 3) == Ok::<int, Seq<char>>(*index as int),
        decreases tokens@.len() - *index, (if parsing { 1int } else { 0int }),
    {
        if matches!(&tokens[*index], Token::RightParen) {
            parsing = false;
        } else {
            match parse_declaration(tokens, index) {
                Err(m) => {
                    return Err(m);
                },
                Ok(_) => {},
            }
            if matches!(&tokens[*index], Token::Comma) {
                proof {
                    lemma_not_end_bound(t, *index as int);
                }
                *index = *index + 1;
                match parse_declaration(tokens, index) {
                    Err(m) => {
                        return Err(m);
                    },
                    Ok(_) => {},
                }
            }
        }
    }
    match &tokens[*index] {
        Token::RightParen => {},
        _ => {
            return Err(String::from_str("Parser: Function expects ')'"));
        },
    }
    proof {
        lemma_not_end_bound(t, *index as int);
    }
    *index = *index + 1;
    match &tokens[*index] {
        Token::LeftCurly => {},
        _ => {
            return Err(String::from_str("Parser: Function expects '{'"));
        },
    }
    proof {
        lemma_not_end_bound(t, *index as int);
    }
    *index = *index + 1;
    match parse_stmt_seq(tokens, index) {
        Err(m) => {
            return Err(m);
        },
        Ok(_) => {},
    }
    match &tokens[*index] {
        Token::RightCurly => {},
        _ => {
            return Err(String::from_str("Parser: Function expects '}'"));
        },
    }
    proof {
        lemma_not_end_bound(t, *index as int);
    }
    *index = *index + 1;
    Ok(())
}

/// Checks a whole program: functions until the `End` sentinel.
#[verifier::loop_isolation(false)]
pub fn parse_program(tokens: &Vec<Token>, index: &mut usize) -> (r: Result<(), String>)
    requires
        end_terminated(token_views(tokens@)),
        *old(index) < tokens@.len(),
    ensures
        sx_result(sx_functions(token_views(tokens@), *old(index) as int), r, *final(index) as int),
        r is Ok ==> token_views(tokens@)[*final(index) as int] is End,
{
    proof {
        lemma_vec_len_bound(tokens);
    }
    let ghost t = token_views(tokens@);
    let ghost i0 = *index as int;
    let mut parsing = true;
    while parsing
        invariant
            *index < tokens@.len(),
            i0 <= *index,
            parsing ==> sx_functions(t, i0) == sx_functions(t, *index as int),
            !parsing ==> t[*index as int] is End && sx_functions(t, i0) == Ok::<int, Seq<char>>(
                *index as int,
            ),
        decreases tokens@.len() - *index, (if parsing { 1int } else { 0int }),
    {
        if at_end(tokens, *index) {
            parsing = false;
        } else {
            match parse_function(tokens, index) {
                Err(m) => {
                    return Err(m);
                },
                Ok(_) => {},
            }
        }
    }
    Ok(())
}

} // verus!
