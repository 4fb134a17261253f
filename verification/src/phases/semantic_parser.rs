//! The semantic parser: a recursive-descent parse of the token stream that
//! checks declarations and scopes and emits linear three-address code.
//!
//! Every executable function here is verified against a ghost mirror
//! (`sp_*` spec functions) that defines, token by token, the exact result:
//! the consumed input, the updated parse context, and the emitted code.

use vstd::prelude::*;

use crate::numeral::dec_digits;
use crate::numeral::dec_string;
use crate::numeral::i32_string;
use crate::numeral::int_digits;
use crate::phases::lexer::Token;
use crate::phases::lexer::TokenV;
use crate::phases::lexer::token_views;

verus! {

/// What kind of thing a declared name stands for.
#[derive(Debug, Clone, Copy, PartialEq, Eq, Structural)]
pub enum SymbolType {
    Variable,
    Function,
    Array,
}

/// Result of lowering an expression: the code that computes it, and the
/// operand name by which later instructions refer to its value.
#[derive(Debug)]
pub struct Expression {
    pub code: String,
    pub name: String,
}

/// The mutable state threaded through one semantic parse: the scope stack,
/// the two name counters, and the loop context for `break`/`continue`.
pub struct ParseContext {
    pub scopes: Vec<Vec<(String, SymbolType)>>,
    pub temp_count: u128,
    pub label_count: u128,
    pub in_loop: bool,
    pub current_end_label: String,
}

/// Ghost counterpart of `ParseContext`.
#[verifier::ext_equal]
pub struct CtxV {
    pub scopes: Seq<Seq<(Seq<char>, SymbolType)>>,
    pub temps: nat,
    pub labels: nat,
    pub in_loop: bool,
    pub end_label: Seq<char>,
}

pub open spec fn sym_view(p: (String, SymbolType)) -> (Seq<char>, SymbolType) {
    (p.0@, p.1)
}

pub open spec fn scope_view(sc: Seq<(String, SymbolType)>) -> Seq<(Seq<char>, SymbolType)> {
    sc.map_values(|p: (String, SymbolType)| sym_view(p))
}

pub open spec fn scopes_view(ss: Seq<Vec<(String, SymbolType)>>) -> Seq<
    Seq<(Seq<char>, SymbolType)>,
> {
    ss.map_values(|sc: Vec<(String, SymbolType)>| scope_view(sc@))
}

impl View for ParseContext {
    type V = CtxV;

    open spec fn view(&self) -> CtxV {
        CtxV {
            scopes: scopes_view(self.scopes@),
            temps: self.temp_count as nat,
            labels: self.label_count as nat,
            in_loop: self.in_loop,
            end_label: self.current_end_label@,
        }
    }
}

// ---------------------------------------------------------------------
// The ghost model of scopes and name allocation
// ---------------------------------------------------------------------

/// First entry of the scope with the given name, searched front to back.
pub open spec fn scope_lookup(sc: Seq<(Seq<char>, SymbolType)>, name: Seq<char>) -> Option<
    SymbolType,
>
    decreases sc.len(),
{
    if sc.len() == 0 {
        None
    } else if sc[0].0 == name {
        Some(sc[0].1)
    } else {
        scope_lookup(sc.drop_first(), name)
    }
}

/// Whether the name is declared in the innermost scope. Only the topmost
/// scope is ever searched; enclosing scopes are invisible.
pub open spec fn sp_find(c: CtxV, name: Seq<char>) -> bool {
    c.scopes.len() > 0 && scope_lookup(c.scopes.last(), name) is Some
}

/// Kind of the name in the innermost scope; `Variable` if absent.
pub open spec fn sp_kind(c: CtxV, name: Seq<char>) -> SymbolType {
    if c.scopes.len() > 0 {
        match scope_lookup(c.scopes.last(), name) {
            Some(ty) => ty,
            None => SymbolType::Variable,
        }
    } else {
        SymbolType::Variable
    }
}

/// Adds the symbol to the innermost scope (no effect on an empty stack).
pub open spec fn sp_declare(c: CtxV, name: Seq<char>, ty: SymbolType) -> CtxV {
    if c.scopes.len() == 0 {
        c
    } else {
        CtxV {
            scopes: c.scopes.update(c.scopes.len() - 1, c.scopes.last().push((name, ty))),
            ..c
        }
    }
}

/// The name of the `n`-th temporary: `t0`, `t1`, ...
pub open spec fn temp_name(n: nat) -> Seq<char> {
    "t"@ + dec_digits(n)
}

/// The name of the `n`-th label: `:0`, `:1`, ...
pub open spec fn label_name(n: nat) -> Seq<char> {
    ":"@ + dec_digits(n)
}

// ---------------------------------------------------------------------
// Small shared spec helpers
// ---------------------------------------------------------------------

/// Tokens remaining at position `i`; the measure every parse recursion
/// shrinks.
pub open spec fn toks_rem(t: Seq<TokenV>, i: int) -> nat {
    if i <= t.len() {
        (t.len() - i) as nat
    } else {
        0
    }
}

/// A sub-parse starting at `i` stopped at `j`: it consumed at least one
/// token and stayed within the input.
pub open spec fn step_ok(t: Seq<TokenV>, i: int, j: int) -> bool {
    i < j && j <= t.len()
}

/// The token sequence is nonempty and ends with the `End` sentinel.
pub open spec fn end_terminated(t: Seq<TokenV>) -> bool {
    t.len() > 0 && t[t.len() - 1] is End
}

/// Room in the 128-bit name counters for one parse of the remaining
/// tokens: each consumed token allocates at most two names, with a little
/// slack for allocations made just before their tokens are consumed.
pub open spec fn counters_fit(c: CtxV, remaining: int) -> bool {
    c.temps + c.labels + 2 * remaining + 8 < u128::MAX
}

/// The names allocated by a sub-parse are bounded by the tokens it
/// consumed.
pub open spec fn alloc_budget(c0: CtxV, c1: CtxV, i0: int, i1: int) -> bool {
    c1.temps + c1.labels <= c0.temps + c0.labels + (i1 - i0)
}

/// Expression lowering touches only the temporary counter: scopes, the
/// label counter and the loop context come through unchanged.
pub open spec fn same_frame(a: CtxV, b: CtxV) -> bool {
    a.scopes == b.scopes && a.labels == b.labels && a.in_loop == b.in_loop && a.end_label
        == b.end_label
}

/// Ghost result of lowering an expression: stop position, context,
/// emitted code and operand name (for the call-argument loop, `name`
/// carries the call instruction built so far).
pub struct ExprOut {
    pub i: int,
    pub c: CtxV,
    pub code: Seq<char>,
    pub name: Seq<char>,
}

/// Ghost result of lowering a statement or statement sequence.
pub struct StmtOut {
    pub i: int,
    pub c: CtxV,
    pub code: Seq<char>,
}

// ---------------------------------------------------------------------
// The ghost mirror of the semantic parse
// ---------------------------------------------------------------------
//
// Each `sp_*` function transcribes one parsing function: same token
// tests in the same order, same error messages, same emitted code. The
// executable functions' contracts say that they return exactly these
// values. The `arbitrary()` branches are unreachable: they are guarded by
// `step_ok`, and every executable parse consumes at least one token.

/// Mirror of `parse_term`.
pub open spec fn sp_term(t: Seq<TokenV>, i: int, c: CtxV) -> Result<ExprOut, Seq<char>>
    decreases toks_rem(t, i), 0int,
{
    if i >= t.len() {
        Err("Unexpected end of input"@)
    } else {
        match t[i] {
            TokenV::Ident(name) => {
                if !sp_find(c, name) {
                    Err("Semantic Analysis: Variable "@ + name + " not declared before use as term"@)
                } else if t[i + 1] is LeftParen {
                    let tname = temp_name(c.temps);
                    let c1 = CtxV { temps: c.temps + 1, ..c };
                    let call0 = "%call "@ + tname + ", "@ + name + "("@;
                    match sp_call_args(t, i + 2, c1, Seq::empty(), call0) {
                        Err(m) => Err(m),
                        Ok(o) => {
                            if t[o.i] is RightParen {
                                Ok(
                                    ExprOut {
                                        i: o.i + 1,
                                        c: o.c,
                                        code: o.code + "%int "@ + tname + "\n"@ + (o.name
                                            + ")\n"@),
                                        name: tname,
                                    },
                                )
                            } else {
                                Err("Parser: Function call expects closing parenthesis"@)
                            }
                        },
                    }
                } else if t[i + 1] is LeftBracket {
                    match sp_expression(t, i + 2, c) {
                        Err(m) => Err(m),
                        Ok(o) => {
                            if t[o.i] is RightBracket {
                                let addr = "["@ + name + " + "@ + o.name + "]"@;
                                let tname = temp_name(o.c.temps);
                                let c2 = CtxV { temps: o.c.temps + 1, ..o.c };
                                Ok(
                                    ExprOut {
                                        i: o.i + 1,
                                        c: c2,
                                        code: o.code + "%int "@ + tname + "\n"@ + "%mov "@ + tname
                                            + ", "@ + addr + "\n"@,
                                        name: tname,
                                    },
                                )
                            } else {
                                Err("Parser: Array access expects closing bracket ']'"@)
                            }
                        },
                    }
                } else {
                    if !(sp_kind(c, name) is Variable) {
                        Err("Semantic Analysis: "@ + name + " is not variable"@)
                    } else {
                        Ok(ExprOut { i: i + 1, c, code: Seq::empty(), name })
                    }
                }
            },
            TokenV::Num(n) => Ok(ExprOut { i: i + 1, c, code: Seq::empty(), name: int_digits(n) }),
            TokenV::LeftParen => {
                match sp_expression(t, i + 1, c) {
                    Err(m) => Err(m),
                    Ok(o) => {
                        if t[o.i] is RightParen {
                            Ok(ExprOut { i: o.i + 1, c: o.c, code: o.code, name: o.name })
                        } else {
                            Err("Parser: Expression expects closing parenthesis ')'"@)
                        }
                    },
                }
            },
            _ => Err("Parser: Unexpected token, expected a term"@),
        }
    }
}

/// Mirror of the argument loop inside a function-call term. `ecode`
/// accumulates the arguments' code, `call` the call instruction text.
pub open spec fn sp_call_args(
    t: Seq<TokenV>,
    i: int,
    c: CtxV,
    ecode: Seq<char>,
    call: Seq<char>,
) -> Result<ExprOut, Seq<char>>
    decreases toks_rem(t, i), 6int,
{
    if i >= t.len() {
        arbitrary()
    } else if t[i] is RightParen {
        Ok(ExprOut { i, c, code: ecode, name: call })
    } else {
        match sp_expression(t, i, c) {
            Err(m) => Err(m),
            Ok(o) => {
                if t[o.i] is Comma {
                    if step_ok(t, i, o.i) {
                        sp_call_args(t, o.i + 1, o.c, ecode + o.code, call + o.name + ","@)
                    } else {
                        arbitrary()
                    }
                } else {
                    Ok(ExprOut { i: o.i, c: o.c, code: ecode + o.code, name: call + o.name })
                }
            },
        }
    }
}

/// Mirror of the `* / %` chain in `parse_multiply_expression`.
pub open spec fn sp_mult_chain(
    t: Seq<TokenV>,
    i: int,
    c: CtxV,
    code: Seq<char>,
    name: Seq<char>,
) -> Result<ExprOut, Seq<char>>
    decreases toks_rem(t, i), 2int,
{
    if i >= t.len() {
        Err("Unexpected end of input"@)
    } else if t[i] is Multiply || t[i] is Divide || t[i] is Modulus {
        let op: Seq<char> = if t[i] is Multiply {
            "%mult"@
        } else if t[i] is Divide {
            "%div"@
        } else {
            "%mod"@
        };
        match sp_term(t, i + 1, c) {
            Err(m) => Err(m),
            Ok(o) => {
                if step_ok(t, i, o.i) {
                    let tname = temp_name(o.c.temps);
                    let c2 = CtxV { temps: o.c.temps + 1, ..o.c };
                    let instr = "%int "@ + tname + "\n"@ + op + " "@ + tname + ", "@ + name + ", "@
                        + o.name + "\n"@;
                    sp_mult_chain(t, o.i, c2, code + o.code + instr, tname)
                } else {
                    arbitrary()
                }
            },
        }
    } else {
        Ok(ExprOut { i, c, code, name })
    }
}

/// Mirror of `parse_multiply_expression`.
pub open spec fn sp_mult(t: Seq<TokenV>, i: int, c: CtxV) -> Result<ExprOut, Seq<char>>
    decreases toks_rem(t, i), 3int,
{
    match sp_term(t, i, c) {
        Err(m) => Err(m),
        Ok(o) => {
            if step_ok(t, i, o.i) {
                sp_mult_chain(t, o.i, o.c, o.code, o.name)
            } else {
                arbitrary()
            }
        },
    }
}

/// Mirror of the `+ -` chain in `parse_expression`.
pub open spec fn sp_expr_chain(
    t: Seq<TokenV>,
    i: int,
    c: CtxV,
    code: Seq<char>,
    name: Seq<char>,
) -> Result<ExprOut, Seq<char>>
    decreases toks_rem(t, i), 4int,
{
    if i >= t.len() {
        Err("Unexpected end of input"@)
    } else if t[i] is Plus || t[i] is Subtract {
        let op: Seq<char> = if t[i] is Plus {
            "%add"@
        } else {
            "%sub"@
        };
        match sp_mult(t, i + 1, c) {
            Err(m) => Err(m),
            Ok(o) => {
                if step_ok(t, i, o.i) {
                    let tname = temp_name(o.c.temps);
                    let c2 = CtxV { temps: o.c.temps + 1, ..o.c };
                    let instr = "%int "@ + tname + "\n"@ + op + " "@ + tname + ", "@ + name + ", "@
                        + o.name + "\n"@;
                    sp_expr_chain(t, o.i, c2, code + o.code + instr, tname)
                } else {
                    arbitrary()
                }
            },
        }
    } else {
        Ok(ExprOut { i, c, code, name })
    }
}

/// Mirror of `parse_expression`.
pub open spec fn sp_expression(t: Seq<TokenV>, i: int, c: CtxV) -> Result<ExprOut, Seq<char>>
    decreases toks_rem(t, i), 5int,
{
    match sp_mult(t, i, c) {
        Err(m) => Err(m),
        Ok(o) => {
            if step_ok(t, i, o.i) {
                sp_expr_chain(t, o.i, o.c, o.code, o.name)
            } else {
                arbitrary()
            }
        },
    }
}

/// Mirror of `parse_bool`: one comparison between two expressions. Both
/// operands' code comes first; the fresh temporary's declaration and the
/// comparison itself are then each one whole instruction line.
pub open spec fn sp_bool(t: Seq<TokenV>, i: int, c: CtxV) -> Result<ExprOut, Seq<char>>
    decreases toks_rem(t, i), 6int,
{
    if i >= t.len() {
        Err("Unexpected end of input"@)
    } else {
        match sp_expression(t, i, c) {
            Err(m) => Err(m),
            Ok(o) => {
                if !step_ok(t, i, o.i) {
                    arbitrary()
                } else {
                    let tname = temp_name(o.c.temps);
                    let c2 = CtxV { temps: o.c.temps + 1, ..o.c };
                    if o.i >= t.len() {
                        Err("Parser: Boolean expression expects a comparison operator"@)
                    } else if t[o.i] is Less || t[o.i] is LessEqual || t[o.i] is Greater
                        || t[o.i] is GreaterEqual || t[o.i] is Equality || t[o.i] is NotEqual {
                        let op: Seq<char> = if t[o.i] is Less {
                            "%lt "@
                        } else if t[o.i] is LessEqual {
                            "%le "@
                        } else if t[o.i] is Greater {
                            "%gt "@
                        } else if t[o.i] is GreaterEqual {
                            "%ge "@
                        } else if t[o.i] is Equality {
                            "%eq "@
                        } else {
                            "%neq "@
                        };
                        match sp_expression(t, o.i + 1, c2) {
                            Err(m) => Err(m),
                            Ok(o2) => Ok(
                                ExprOut {
                                    i: o2.i,
                                    c: o2.c,
                                    code: o.code + o2.code + "%int "@ + tname + "\n"@ + op
                                        + tname + ", "@ + o.name + ", "@ + o2.name + "\n"@,
                                    name: tname,
                                },
                            ),
                        }
                    } else {
                        Err("Parser: Boolean expression expects a comparison operator"@)
                    }
                }
            },
        }
    }
}

/// Mirror of `parse_declaration`: one parameter declaration.
pub open spec fn sp_param_decl(t: Seq<TokenV>, i: int, c: CtxV) -> Result<StmtOut, Seq<char>>
    decreases toks_rem(t, i), 8int,
{
    if i >= t.len() {
        Err("Unexpected end of input"@)
    } else if !(t[i] is Int) {
        Err("Parser: Function declaration statements must begin with 'int' keyword"@)
    } else {
        let (j, ty) = if t[i + 1] is LeftBracket {
            (i + 4, SymbolType::Array)
        } else {
            (i + 1, SymbolType::Variable)
        };
        if t[i + 1] is LeftBracket && !(t[i + 2] is Num) {
            Err("Parser: Function declarations of arrays must have Type [Num] Ident form"@)
        } else if t[i + 1] is LeftBracket && t[i + 2]->Num_0 == 0 {
            Err("Semantic Analysis: Cannot have array sized 0"@)
        } else if t[i + 1] is LeftBracket && !(t[i + 3] is RightBracket) {
            Err(
                "Parser: Function declarations of arrays in Type [Num] Ident form require a closing bracket"@,
            )
        } else {
            match t[j] {
                TokenV::Ident(name) => {
                    if sp_find(c, name) {
                        Err("Semantic Analysis: Found duplicate variable "@ + name)
                    } else {
                        Ok(
                            StmtOut {
                                i: j + 1,
                                c: sp_declare(c, name, ty),
                                code: "%int "@ + name,
                            },
                        )
                    }
                },
                _ => Err("Parser: Function declarations must have an identifier"@),
            }
        }
    }
}

/// Mirror of the parameter loop in `parse_function`.
pub open spec fn sp_params(t: Seq<TokenV>, i: int, c: CtxV, acc: Seq<char>) -> Result<
    StmtOut,
    Seq<char>,
>
    decreases toks_rem(t, i), 9int,
{
    if i >= t.len() {
        arbitrary()
    } else if t[i] is RightParen {
        Ok(StmtOut { i, c, code: acc })
    } else {
        match sp_param_decl(t, i, c) {
            Err(m) => Err(m),
            Ok(o) => {
                if !step_ok(t, i, o.i) {
                    arbitrary()
                } else if t[o.i] is Comma {
                    sp_params(t, o.i + 1, o.c, acc + o.code + ", "@)
                } else {
                    Ok(StmtOut { i: o.i, c: o.c, code: acc + o.code })
                }
            },
        }
    }
}

/// Mirror of `parse_declaration_statement`.
pub open spec fn sp_declaration_statement(t: Seq<TokenV>, i: int, c: CtxV) -> Result<
    StmtOut,
    Seq<char>,
>
    decreases toks_rem(t, i), 8int,
{
    if i >= t.len() {
        Err("Unexpected end of input"@)
    } else if !(t[i] is Int) {
        Err("Parser: Declaration statements must begin with 'int' keyword"@)
    } else {
        let arr = t[i + 1] is LeftBracket;
        let (j, ty, head, num) = if arr {
            (
                i + 4,
                SymbolType::Array,
                "%int"@ + "[]"@,
                ", "@ + int_digits(t[i + 2]->Num_0),
            )
        } else {
            (i + 1, SymbolType::Variable, "%int"@, Seq::<char>::empty())
        };
        if arr && !(t[i + 2] is Num) {
            Err("Parser: Declarations of arrays must have Type [Num] Ident form"@)
        } else if arr && t[i + 2]->Num_0 == 0 {
            Err("Semantic Analysis: Cannot have array sized 0"@)
        } else if arr && !(t[i + 3] is RightBracket) {
            Err("Parser: Declarations of Type [Num] Ident form require a closing bracket"@)
        } else {
            match t[j] {
                TokenV::Ident(name) => {
                    if sp_find(c, name) {
                        Err("Semantic Analysis: Found duplicate variable "@ + name)
                    } else if !(t[j + 1] is Semicolon) {
                        Err("Parser: Declarations statements must end with a semicolon"@)
                    } else {
                        Ok(
                            StmtOut {
                                i: j + 2,
                                c: sp_declare(c, name, ty),
                                code: head + " "@ + name + num + "\n"@,
                            },
                        )
                    }
                },
                _ => Err("Parser: Declarations must have an identifier"@),
            }
        }
    }
}

/// Mirror of `parse_assignment_statement`.
pub open spec fn sp_assignment_statement(t: Seq<TokenV>, i: int, c: CtxV) -> Result<
    StmtOut,
    Seq<char>,
>
    decreases toks_rem(t, i), 8int,
{
    if i >= t.len() {
        Err("Unexpected end of input"@)
    } else {
        match t[i] {
            TokenV::Ident(name) => {
                if !sp_find(c, name) {
                    Err("Semantic Analysis: Variable "@ + name + " not declared before assignment"@)
                } else if t[i + 1] is LeftBracket {
                    if !(sp_kind(c, name) is Array) {
                        Err("Semantic Analysis: "@ + name + " is not array"@)
                    } else {
                        match sp_expression(t, i + 2, c) {
                            Err(m) => Err(m),
                            Ok(o) => {
                                if !step_ok(t, i, o.i) {
                                    arbitrary()
                                } else if !(t[o.i] is RightBracket) {
                                    Err("Parser: Array assignments must have a closing bracket ']'"@)
                                } else {
                                    let dest = "["@ + name + " + "@ + o.name + "]"@;
                                    sp_assignment_tail(t, o.i + 1, o.c, o.code, dest)
                                }
                            },
                        }
                    }
                } else {
                    sp_assignment_tail(t, i + 1, c, Seq::empty(), name)
                }
            },
            _ => Err("Parser: Assignment statements must begin with an identifier"@),
        }
    }
}

/// Mirror of the tail of an assignment: `= expression ;`.
pub open spec fn sp_assignment_tail(
    t: Seq<TokenV>,
    i: int,
    c: CtxV,
    code: Seq<char>,
    dest: Seq<char>,
) -> Result<StmtOut, Seq<char>>
    decreases toks_rem(t, i), 6int,
{
    if i >= t.len() {
        Err("Unexpected end of input"@)
    } else if !(t[i] is Assign) {
        Err("Parser: Assignment statement is missing the '=' operator"@)
    } else {
        match sp_expression(t, i + 1, c) {
            Err(m) => Err(m),
            Ok(o) => {
                if !(t[o.i] is Semicolon) {
                    Err("Parser: Assignment statements must end with a semicolon ';'"@)
                } else {
                    Ok(
                        StmtOut {
                            i: o.i + 1,
                            c: o.c,
                            code: code + o.code + ("%mov "@ + dest + ", "@ + o.name + "\n"@),
                        },
                    )
                }
            },
        }
    }
}

/// Mirror of `parse_return_statement`.
pub open spec fn sp_return_statement(t: Seq<TokenV>, i: int, c: CtxV) -> Result<StmtOut, Seq<char>>
    decreases toks_rem(t, i), 8int,
{
    if i >= t.len() {
        Err("Unexpected end of input"@)
    } else if !(t[i] is Return) {
        Err("Parser: Return statements must begin with a return keyword"@)
    } else {
        match sp_expression(t, i + 1, c) {
            Err(m) => Err(m),
            Ok(o) => {
                if !(t[o.i] is Semicolon) {
                    Err("Parser: Return statements must end with a semicolon"@)
                } else {
                    Ok(
                        StmtOut {
                            i: o.i + 1,
                            c: o.c,
                            code: o.code + ("%ret "@ + o.name + "\n"@),
                        },
                    )
                }
            },
        }
    }
}

/// Mirror of `parse_print_statement`.
pub open spec fn sp_print_statement(t: Seq<TokenV>, i: int, c: CtxV) -> Result<StmtOut, Seq<char>>
    decreases toks_rem(t, i), 8int,
{
    if i >= t.len() {
        Err("Unexpected end of input"@)
    } else if !(t[i] is Print) {
        Err("Parser: Print statements must begin with the 'print' keyword"@)
    } else {
        match sp_expression(t, i + 1, c) {
            Err(m) => Err(m),
            Ok(o) => {
                if !(t[o.i] is Semicolon) {
                    Err("Parser: Print statements must end with a semicolon ';'"@)
                } else {
                    Ok(
                        StmtOut {
                            i: o.i + 1,
                            c: o.c,
                            code: o.code + ("%out "@ + o.name + "\n"@),
                        },
                    )
                }
            },
        }
    }
}

/// Mirror of `parse_read_statement`. Its missing-semicolon message
/// names print statements.
pub open spec fn sp_read_statement(t: Seq<TokenV>, i: int, c: CtxV) -> Result<StmtOut, Seq<char>>
    decreases toks_rem(t, i), 8int,
{
    if i >= t.len() {
        Err("Unexpected end of input"@)
    } else if !(t[i] is Read) {
        Err("Parser: Read statements must begin with the 'read' keyword"@)
    } else {
        match sp_expression(t, i + 1, c) {
            Err(m) => Err(m),
            Ok(o) => {
                if !(t[o.i] is Semicolon) {
                    Err("Parser: Print statements must end with a semicolon ';'"@)
                } else {
                    Ok(
                        StmtOut {
                            i: o.i + 1,
                            c: o.c,
                            code: o.code + ("%input "@ + o.name + "\n"@),
                        },
                    )
                }
            },
        }
    }
}

/// Mirror of `parse_break_statement`.
pub open spec fn sp_break_statement(t: Seq<TokenV>, i: int, c: CtxV) -> Result<StmtOut, Seq<char>>
    decreases toks_rem(t, i), 8int,
{
    if !c.in_loop {
        Err("Semantic Analysis: break statement not within a loop"@)
    } else if i >= t.len() {
        Err("Unexpected end of input"@)
    } else if !(t[i] is Break) {
        Err("Parser: Expected 'break' keyword"@)
    } else if !(t[i + 1] is Semicolon) {
        Err("Parser: Break statements must end with a semicolon ';'"@)
    } else if c.end_label.len() == 0 {
        Err("Error: CURRENT_END_LABEL is empty."@)
    } else {
        Ok(StmtOut { i: i + 2, c, code: "%jmp "@ + c.end_label + "\n"@ })
    }
}

/// Mirror of `parse_continue_statement`. It jumps to the same label as
/// `break` does: the innermost loop's end label.
pub open spec fn sp_continue_statement(t: Seq<TokenV>, i: int, c: CtxV) -> Result<
    StmtOut,
    Seq<char>,
>
    decreases toks_rem(t, i), 8int,
{
    if !c.in_loop {
        Err("Error: continue statement not within a loop"@)
    } else if i >= t.len() {
        Err("Unexpected end of input"@)
    } else if !(t[i] is Continue) {
        Err("Parser: Expected 'continue' keyword"@)
    } else if !(t[i + 1] is Semicolon) {
        Err("Parser: Continue statements must end with a semicolon ';'"@)
    } else if c.end_label.len() == 0 {
        Err("Error: CURRENT_END_LABEL is empty."@)
    } else {
        Ok(StmtOut { i: i + 2, c, code: "%jmp "@ + c.end_label + "\n"@ })
    }
}

/// Mirror of the statement loop that runs until a closing brace.
pub open spec fn sp_stmt_seq(t: Seq<TokenV>, i: int, c: CtxV, acc: Seq<char>) -> Result<
    StmtOut,
    Seq<char>,
>
    decreases toks_rem(t, i), 10int,
{
    if i >= t.len() {
        arbitrary()
    } else if t[i] is RightCurly {
        Ok(StmtOut { i, c, code: acc })
    } else {
        match sp_statement(t, i, c) {
            Err(m) => Err(m),
            Ok(o) => {
                if step_ok(t, i, o.i) {
                    sp_stmt_seq(t, o.i, o.c, acc + o.code)
                } else {
                    arbitrary()
                }
            },
        }
    }
}

/// Mirror of `parse_while_statement`. The end label is allocated before
/// the start label; the loop context is saved and restored around the
/// body, and the emitted code has no back edge to the start label.
pub open spec fn sp_while_statement(t: Seq<TokenV>, i: int, c: CtxV) -> Result<StmtOut, Seq<char>>
    decreases toks_rem(t, i), 8int,
{
    if i >= t.len() {
        Err("Unexpected end of input"@)
    } else {
        let end_label = label_name(c.labels);
        let start_label = label_name(c.labels + 1);
        let hold = c.end_label;
        let c1 = CtxV { labels: c.labels + 2, in_loop: true, end_label: end_label, ..c };
        if !(t[i] is While) {
            Err("Parser: Expected 'while' keyword"@)
        } else {
            match sp_bool(t, i + 1, c1) {
                Err(m) => Err(m),
                Ok(o) => {
                    if !step_ok(t, i, o.i) {
                        arbitrary()
                    } else {
                        let code1 = start_label + "\n"@ + o.code + ("%branch_ifn "@ + o.name
                            + ", "@ + end_label + "\n"@);
                        if !(t[o.i] is LeftCurly) {
                            Err("Parser: While statement execution code must begin with '{'"@)
                        } else {
                            match sp_stmt_seq(t, o.i + 1, o.c, code1) {
                                Err(m) => Err(m),
                                Ok(o2) => {
                                    let c3 = CtxV {
                                        in_loop: if hold.len() == 0 {
                                            false
                                        } else {
                                            o2.c.in_loop
                                        },
                                        end_label: hold,
                                        ..o2.c
                                    };
                                    Ok(
                                        StmtOut {
                                            i: o2.i + 1,
                                            c: c3,
                                            code: o2.code + end_label + "\n"@,
                                        },
                                    )
                                },
                            }
                        }
                    }
                },
            }
        }
    }
}

/// Mirror of the optional else block of an if statement, entered just
/// past the true branch's closing brace; `code2` holds the code emitted
/// so far and `end_label` the if statement's end label.
pub open spec fn sp_if_else(
    t: Seq<TokenV>,
    j: int,
    c: CtxV,
    code2: Seq<char>,
    end_label: Seq<char>,
) -> Result<StmtOut, Seq<char>>
    decreases toks_rem(t, j), 7int,
{
    if j < t.len() && t[j] is Else {
        if !(t[j + 1] is LeftCurly) {
            Err("Parser: Else statement execution code must begin with '{'"@)
        } else if j + 2 > t.len() {
            arbitrary()
        } else {
            match sp_stmt_seq(t, j + 2, c, code2) {
                Err(m) => Err(m),
                Ok(o3) => Ok(StmtOut { i: o3.i + 1, c: o3.c, code: o3.code + end_label + "\n"@ }),
            }
        }
    } else {
        Ok(StmtOut { i: j, c, code: code2 + end_label + "\n"@ })
    }
}

/// Mirror of `parse_if_statement`. The end label is allocated before the
/// false label; the emitted code has no jump from the end of the true
/// branch past the else region.
pub open spec fn sp_if_statement(t: Seq<TokenV>, i: int, c: CtxV) -> Result<StmtOut, Seq<char>>
    decreases toks_rem(t, i), 8int,
{
    if i >= t.len() {
        Err("Unexpected end of input"@)
    } else {
        let end_label = label_name(c.labels);
        let false_label = label_name(c.labels + 1);
        let c1 = CtxV { labels: c.labels + 2, ..c };
        if !(t[i] is If) {
            Err("Parser: If statement expects 'if' keyword"@)
        } else {
            match sp_bool(t, i + 1, c1) {
                Err(m) => Err(m),
                Ok(o) => {
                    if !step_ok(t, i, o.i) {
                        arbitrary()
                    } else {
                        let code1 = o.code + ("%branch_ifn "@ + o.name + ", "@ + false_label
                            + "\n"@);
                        if !(t[o.i] is LeftCurly) {
                            Err("Parser: If statement execution code must begin with '{'"@)
                        } else {
                            match sp_stmt_seq(t, o.i + 1, o.c, code1) {
                                Err(m) => Err(m),
                                Ok(o2) => {
                                    let code2 = o2.code + false_label + "\n"@;
                                    if !step_ok(t, i, o2.i) {
                                        arbitrary()
                                    } else {
                                        sp_if_else(t, o2.i + 1, o2.c, code2, end_label)
                                    }
                                },
                            }
                        }
                    }
                },
            }
        }
    }
}

/// Mirror of `parse_statement`: dispatch on the leading token.
pub open spec fn sp_statement(t: Seq<TokenV>, i: int, c: CtxV) -> Result<StmtOut, Seq<char>>
    decreases toks_rem(t, i), 9int,
{
    if i >= t.len() {
        Err("Unexpected end of input"@)
    } else {
        match t[i] {
            TokenV::Int => sp_declaration_statement(t, i, c),
            TokenV::Ident(_) => sp_assignment_statement(t, i, c),
            TokenV::Return => sp_return_statement(t, i, c),
            TokenV::Print => sp_print_statement(t, i, c),
            TokenV::Read => sp_read_statement(t, i, c),
            TokenV::If => sp_if_statement(t, i, c),
            TokenV::While => sp_while_statement(t, i, c),
            TokenV::Break => sp_break_statement(t, i, c),
            TokenV::Continue => sp_continue_statement(t, i, c),
            _ => Err("Parser: Invalid statement"@),
        }
    }
}

/// Mirror of `parse_function`: `func name ( params ) { statements }`.
/// The function's name is declared in the enclosing scope; a fresh scope
/// holds its parameters and locals.
pub open spec fn sp_function(t: Seq<TokenV>, i: int, c: CtxV) -> Result<StmtOut, Seq<char>>
    decreases toks_rem(t, i), 11int,
{
    if i >= t.len() {
        Err("Unexpected end of input"@)
    } else if !(t[i] is Func) {
        Err("Parser: Functions must begin with 'func'"@)
    } else {
        match t[i + 1] {
            TokenV::Ident(name) => {
                if sp_find(c, name) {
                    Err("Semantic Analysis: Found duplicate function "@ + name)
                } else {
                    let c1 = sp_declare(c, name, SymbolType::Function);
                    let code0 = "%func "@ + name + "("@;
                    if !(t[i + 2] is LeftParen) {
                        Err("Parser: Funtion expects '('"@)
                    } else {
                        let c2 = CtxV { scopes: c1.scopes.push(Seq::empty()), ..c1 };
                        match sp_params(t, i + 3, c2, code0) {
                            Err(m) => Err(m),
                            Ok(o) => {
                                if !(t[o.i] is RightParen) {
                                    Err("Parser: Function expects ')'"@)
                                } else if !(t[o.i + 1] is LeftCurly) {
                                    Err("Parser: Function expects '{'"@)
                                } else {
                                    if !step_ok(t, i, o.i + 2) {
                                        arbitrary()
                                    } else {
                                        match sp_stmt_seq(t, o.i + 2, o.c, o.code + ")\n"@) {
                                            Err(m) => Err(m),
                                            Ok(o2) => {
                                                let c3 = CtxV {
                                                    scopes: o2.c.scopes.drop_last(),
                                                    ..o2.c
                                                };
                                                Ok(
                                                    StmtOut {
                                                        i: o2.i + 1,
                                                        c: c3,
                                                        code: o2.code + "%endfunc\n"@,
                                                    },
                                                )
                                            },
                                        }
                                    }
                                }
                            },
                        }
                    }
                }
            },
            _ => Err("Parser: Functions must have a function identifier"@),
        }
    }
}

/// Mirror of the function loop in `parse_program`.
pub open spec fn sp_functions(t: Seq<TokenV>, i: int, c: CtxV, acc: Seq<char>) -> Result<
    StmtOut,
    Seq<char>,
>
    decreases toks_rem(t, i), 12int,
{
    if i >= t.len() {
        arbitrary()
    } else if t[i] is End {
        Ok(StmtOut { i, c, code: acc })
    } else {
        match sp_function(t, i, c) {
            Err(m) => Err(m),
            Ok(o) => {
                if step_ok(t, i, o.i) {
                    sp_functions(t, o.i, o.c, acc + o.code)
                } else {
                    arbitrary()
                }
            },
        }
    }
}

/// The context a semantic parse starts from: one empty global scope,
/// both counters at zero, no enclosing loop.
pub open spec fn initial_ctx() -> CtxV {
    CtxV {
        scopes: seq![Seq::<(Seq<char>, SymbolType)>::empty()],
        temps: 0,
        labels: 0,
        in_loop: false,
        end_label: Seq::<char>::empty(),
    }
}

/// Mirror of `parse_program`: functions until `End`, then the whole
/// program must have declared a function named `main`.
pub open spec fn sp_program(t: Seq<TokenV>, i: int) -> Result<(int, Seq<char>), Seq<char>>
    decreases toks_rem(t, i), 13int,
{
    match sp_functions(t, i, initial_ctx(), Seq::empty()) {
        Err(m) => Err(m),
        Ok(o) => {
            if !sp_find(o.c, "main"@) {
                Err("Semantic Analysis: Did not find main function"@)
            } else {
                Ok((o.i, o.code))
            }
        },
    }
}

// ---------------------------------------------------------------------
// The parse context's executable operations
// ---------------------------------------------------------------------

impl ParseContext {
    /// A fresh context: no scopes, both counters at zero, no loop.
    pub fn new() -> (c: ParseContext)
        ensures
            c@ == (CtxV {
                scopes: Seq::<Seq<(Seq<char>, SymbolType)>>::empty(),
                temps: 0,
                labels: 0,
                in_loop: false,
                end_label: Seq::<char>::empty(),
            }),
    {
        let c = ParseContext {
            scopes: Vec::new(),
            temp_count: 0,
            label_count: 0,
            in_loop: false,
            current_end_label: String::new(),
        };
        proof {
            assert(scopes_view(c.scopes@) =~= Seq::<Seq<(Seq<char>, SymbolType)>>::empty());
            assert(c@ =~= (CtxV {
                scopes: Seq::<Seq<(Seq<char>, SymbolType)>>::empty(),
                temps: 0,
                labels: 0,
                in_loop: false,
                end_label: Seq::<char>::empty(),
            }));
        }
        c
    }

    /// Pushes a fresh, empty scope.
    pub fn enter_scope(&mut self)
        ensures
            final(self)@ == (CtxV {
                scopes: old(self)@.scopes.push(Seq::empty()),
                ..old(self)@
            }),
    {
        self.scopes.push(Vec::new());
        proof {
            assert(scope_view(Seq::<(String, SymbolType)>::empty()) =~= Seq::<
                (Seq<char>, SymbolType),
            >::empty());
            assert(scopes_view(self.scopes@) =~= old(self)@.scopes.push(Seq::empty()));
            assert(self@ =~= (CtxV { scopes: old(self)@.scopes.push(Seq::empty()), ..old(self)@ }));
        }
    }

    /// Pops the innermost scope, discarding its symbols; a no-op when the
    /// stack is already empty.
    pub fn exit_scope(&mut self)
        ensures
            final(self)@ == (CtxV {
                scopes: if old(self)@.scopes.len() == 0 {
                    old(self)@.scopes
                } else {
                    old(self)@.scopes.drop_last()
                },
                ..old(self)@
            }),
    {
        let _ = self.scopes.pop();
        proof {
            if old(self)@.scopes.len() == 0 {
                assert(self@ =~= (CtxV { scopes: old(self)@.scopes, ..old(self)@ }));
            } else {
                assert(scopes_view(self.scopes@) =~= old(self)@.scopes.drop_last());
                assert(self@ =~= (CtxV { scopes: old(self)@.scopes.drop_last(), ..old(self)@ }));
            }
        }
    }

    /// Whether the name is declared in the innermost scope.
    #[verifier::loop_isolation(false)]
    pub fn find_symbol(&self, name: &String) -> (r: bool)
        ensures
            r == sp_find(self@, name@),
    {
        let n = self.scopes.len();
        if n == 0 {
            return false;
        }
        let sc = &self.scopes[n - 1];
        let ghost sv = scope_view(sc@);
        proof {
            assert(self@.scopes.last() == sv);
            assert(sv.skip(0) =~= sv);
        }
        let m = sc.len();
        let mut k: usize = 0;
        while k < m
            invariant
                m == sc@.len(),
                k <= m,
                sv == scope_view(sc@),
                scope_lookup(sv, name@) == scope_lookup(sv.skip(k as int), name@),
            decreases m - k,
        {
            proof {
                assert(sv.skip(k as int)[0] == sv[k as int]);
                assert(sv[k as int] == sym_view(sc@[k as int]));
            }
            if sc[k].0 == *name {
                return true;
            }
            proof {
                assert(sv.skip(k as int).drop_first() =~= sv.skip(k as int + 1));
            }
            k = k + 1;
        }
        proof {
            assert(sv.skip(m as int) =~= Seq::<(Seq<char>, SymbolType)>::empty());
        }
        false
    }

    /// Kind of the name in the innermost scope; `Variable` if absent.
    #[verifier::loop_isolation(false)]
    pub fn find_symbol_type(&self, name: &String) -> (r: SymbolType)
        ensures
            r == sp_kind(self@, name@),
    {
        let n = self.scopes.len();
        if n == 0 {
            return SymbolType::Variable;
        }
        let sc = &self.scopes[n - 1];
        let ghost sv = scope_view(sc@);
        proof {
            assert(self@.scopes.last() == sv);
            assert(sv.skip(0) =~= sv);
        }
        let m = sc.len();
        let mut k: usize = 0;
        while k < m
            invariant
                m == sc@.len(),
                k <= m,
                sv == scope_view(sc@),
                scope_lookup(sv, name@) == scope_lookup(sv.skip(k as int), name@),
            decreases m - k,
        {
            proof {
                assert(sv.skip(k as int)[0] == sv[k as int]);
                assert(sv[k as int] == sym_view(sc@[k as int]));
            }
            if sc[k].0 == *name {
                return sc[k].1;
            }
            proof {
                assert(sv.skip(k as int).drop_first() =~= sv.skip(k as int + 1));
            }
            k = k + 1;
        }
        proof {
            assert(sv.skip(m as int) =~= Seq::<(Seq<char>, SymbolType)>::empty());
        }
        SymbolType::Variable
    }

    /// Adds a symbol to the innermost scope. The caller checks for
    /// duplicates first; this operation itself does not.
    pub fn add_symbol(&mut self, ident: String, ty: SymbolType)
        ensures
            final(self)@ == sp_declare(old(self)@, ident@, ty),
    {
        let n = self.scopes.len();
        if n == 0 {
            return;
        }
        let ghost ss0 = self.scopes@;
        let mut last = match self.scopes.pop() {
            Some(sc) => sc,
            None => {
                return;
            },
        };
        last.push((ident, ty));
        self.scopes.push(last);
        proof {
            let target = sp_declare(old(self)@, ident@, ty);
            assert(scope_view(self.scopes@.last()@) =~= scope_view(ss0.last()@).push(
                (ident@, ty),
            ));
            assert(self.scopes@ =~= ss0.update(ss0.len() - 1, self.scopes@.last()));
            assert(scopes_view(self.scopes@) =~= target.scopes);
            assert(self@ =~= target);
        }
    }

    /// Returns the next temporary name, `t<counter>`, and advances the
    /// temporary counter; no two calls ever return the same name.
    pub fn create_temp(&mut self) -> (r: String)
        requires
            old(self).temp_count < u128::MAX,
        ensures
            r@ == temp_name(old(self)@.temps),
            final(self)@ == (CtxV { temps: old(self)@.temps + 1, ..old(self)@ }),
    {
        let r = String::from_str("t").concat(dec_string(self.temp_count).as_str());
        self.temp_count = self.temp_count + 1;
        proof {
            assert(self@ =~= (CtxV { temps: old(self)@.temps + 1, ..old(self)@ }));
        }
        r
    }

    /// Returns the next label name, `:<counter>`, and advances the label
    /// counter; no two calls ever return the same name.
    pub fn create_label(&mut self) -> (r: String)
        requires
            old(self).label_count < u128::MAX,
        ensures
            r@ == label_name(old(self)@.labels),
            final(self)@ == (CtxV { labels: old(self)@.labels + 1, ..old(self)@ }),
    {
        let r = String::from_str(":").concat(dec_string(self.label_count).as_str());
        self.label_count = self.label_count + 1;
        proof {
            assert(self@ =~= (CtxV { labels: old(self)@.labels + 1, ..old(self)@ }));
        }
        r
    }
}

// ---------------------------------------------------------------------
// The executable parser
// ---------------------------------------------------------------------

/// The executable result is exactly the mirror's: same success or
/// failure and message; on success the mirror's stop position, context,
/// emitted code, and operand name.
pub open spec fn expr_result(
    m: Result<ExprOut, Seq<char>>,
    r: Result<Expression, String>,
    i1: int,
    c1: CtxV,
) -> bool {
    match r {
        Ok(e) => m is Ok && m->Ok_0.i == i1 && m->Ok_0.c == c1 && m->Ok_0.code == e.code@
            && m->Ok_0.name == e.name@,
        Err(e) => m is Err && e@ == m->Err_0,
    }
}

/// The leading tokens `parse_statement` dispatches on; any other
/// leading token is an invalid statement.
pub open spec fn statement_dispatchable(tok: TokenV) -> bool {
    ||| tok is Int
    ||| tok is Ident
    ||| tok is Return
    ||| tok is Print
    ||| tok is Read
    ||| tok is If
    ||| tok is While
    ||| tok is Break
    ||| tok is Continue
}

/// As `expr_result`, for the statement-level functions, which return the
/// emitted code alone.
pub open spec fn stmt_result(
    m: Result<StmtOut, Seq<char>>,
    r: Result<String, String>,
    i1: int,
    c1: CtxV,
) -> bool {
    match r {
        Ok(code) => m is Ok && m->Ok_0.i == i1 && m->Ok_0.c == c1 && m->Ok_0.code == code@,
        Err(e) => m is Err && e@ == m->Err_0,
    }
}

/// A token other than `End` never sits at the last position of an
/// `End`-terminated stream.
pub proof fn lemma_not_end_bound(t: Seq<TokenV>, i: int)
    requires
        end_terminated(t),
        0 <= i < t.len(),
        !(t[i] is End),
    ensures
        i + 1 < t.len(),
{
    assert(i != t.len() - 1);
}

/// A vector's ghost length fits in `usize`.
pub proof fn lemma_vec_len_bound(tokens: &Vec<Token>)
    ensures
        tokens@.len() <= usize::MAX,
{
    broadcast use vstd::std_specs::vec::axiom_spec_len;

    assert(tokens.len() == tokens@.len());
}

/// Parses a term: a plain variable, a numeric literal, a call, an array
/// element read (copied through a fresh temporary), or a parenthesized
/// expression.
#[verifier::loop_isolation(false)]
pub fn parse_term(tokens: &Vec<Token>, index: &mut usize, ctx: &mut ParseContext) -> (r: Result<
    Expression,
    String,
>)
    requires
        end_terminated(token_views(tokens@)),
        *old(index) < tokens@.len(),
        counters_fit(old(ctx)@, tokens@.len() - *old(index)),
    ensures
        expr_result(
            sp_term(token_views(tokens@), *old(index) as int, old(ctx)@),
            r,
            *final(index) as int,
            final(ctx)@,
        ),
        r is Ok ==> *old(index) < *final(index) < tokens@.len() && alloc_budget(
            old(ctx)@,
            final(ctx)@,
            *old(index) as int,
            *final(index) as int,
        ),
        r is Ok ==> same_frame(old(ctx)@, final(ctx)@),
    decreases tokens@.len() - *old(index), 0int,
{
    proof {
        lemma_vec_len_bound(tokens);
    }
    let ghost t = token_views(tokens@);
    let ghost i0 = *index as int;
    let ghost c0 = ctx@;
    let i = *index;
    match &tokens[i] {
        Token::Ident(ident) => {
            proof {
                lemma_not_end_bound(t, i0);
            }
            if !ctx.find_symbol(ident) {
                return Err(
                    String::from_str("Semantic Analysis: Variable ").concat(ident.as_str()).concat(
                        " not declared before use as term",
                    ),
                );
            }
            let next_is_paren = matches!(&tokens[i + 1], Token::LeftParen);
            let next_is_bracket = matches!(&tokens[i + 1], Token::LeftBracket);
            if next_is_paren {
                proof {
                    lemma_not_end_bound(t, i0 + 1);
                }
                let tname = ctx.create_temp();
                let ghost c1 = ctx@;
                let mut call_code = String::from_str("%call ").concat(tname.as_str()).concat(
                    ", ",
                ).concat(ident.as_str()).concat("(");
                let ghost call0 = call_code@;
                let mut expr_code = String::new();
                *index = i + 2;
                let mut parsing = true;
                while parsing
                    invariant
                        *index < tokens@.len(),
                        i0 + 2 <= *index,
                        alloc_budget(c1, ctx@, i0 + 2, *index as int),
                        same_frame(c1, ctx@),
                        parsing ==> sp_call_args(t, i0 + 2, c1, Seq::empty(), call0)
                            == sp_call_args(t, *index as int, ctx@, expr_code@, call_code@),
                        !parsing ==> sp_call_args(t, i0 + 2, c1, Seq::empty(), call0) == Ok::<
                            ExprOut,
                            Seq<char>,
                        >(
                            ExprOut {
                                i: *index as int,
                                c: ctx@,
                                code: expr_code@,
                                name: call_code@,
                            },
                        ),
                    decreases tokens@.len() - *index, (if parsing { 1int } else { 0int }),
                {
                    if matches!(&tokens[*index], Token::RightParen) {
                        parsing = false;
                    } else {
                        let e = match parse_expression(tokens, index, ctx) {
                            Err(m) => {
                                return Err(m);
                            },
                            Ok(e) => e,
                        };
                        expr_code = expr_code.concat(e.code.as_str());
                        call_code = call_code.concat(e.name.as_str());
                        if matches!(&tokens[*index], Token::Comma) {
                            proof {
                                lemma_not_end_bound(t, *index as int);
                            }
                            *index = *index + 1;
                            call_code = call_code.concat(",");
                        } else {
                            parsing = false;
                        }
                    }
                }
                match &tokens[*index] {
                    Token::RightParen => {
                        proof {
                            lemma_not_end_bound(t, *index as int);
                        }
                        *index = *index + 1;
                        call_code = call_code.concat(")\n");
                        let code = expr_code.concat("%int ").concat(tname.as_str()).concat(
                            "\n",
                        ).concat(call_code.as_str());
                        return Ok(Expression { code, name: tname });
                    },
                    _ => {
                        return Err(
                            String::from_str("Parser: Function call expects closing parenthesis"),
                        );
                    },
                }
            } else if next_is_bracket {
                proof {
                    lemma_not_end_bound(t, i0 + 1);
                }
                *index = i + 2;
                let e = match parse_expression(tokens, index, ctx) {
                    Err(m) => {
                        return Err(m);
                    },
                    Ok(e) => e,
                };
                match &tokens[*index] {
                    Token::RightBracket => {
                        proof {
                            lemma_not_end_bound(t, *index as int);
                        }
                        let addr = String::from_str("[").concat(ident.as_str()).concat(
                            " + ",
                        ).concat(e.name.as_str()).concat("]");
                        let tname = ctx.create_temp();
                        let code = e.code.concat("%int ").concat(tname.as_str()).concat(
                            "\n",
                        ).concat("%mov ").concat(tname.as_str()).concat(", ").concat(
                            addr.as_str(),
                        ).concat("\n");
                        *index = *index + 1;
                        return Ok(Expression { code, name: tname });
                    },
                    _ => {
                        return Err(
                            String::from_str("Parser: Array access expects closing bracket ']'"),
                        );
                    },
                }
            } else {
                let kind = ctx.find_symbol_type(ident);
                if kind != SymbolType::Variable {
                    return Err(
                        String::from_str("Semantic Analysis: ").concat(ident.as_str()).concat(
                            " is not variable",
                        ),
                    );
                }
                *index = i + 1;
                return Ok(Expression { code: String::new(), name: ident.clone() });
            }
        },
        Token::Num(n) => {
            proof {
                lemma_not_end_bound(t, i0);
            }
            *index = i + 1;
            return Ok(Expression { code: String::new(), name: i32_string(*n) });
        },
        Token::LeftParen => {
            proof {
                lemma_not_end_bound(t, i0);
            }
            *index = i + 1;
            let e = match parse_expression(tokens, index, ctx) {
                Err(m) => {
                    return Err(m);
                },
                Ok(e) => e,
            };
            match &tokens[*index] {
                Token::RightParen => {
                    proof {
                        lemma_not_end_bound(t, *index as int);
                    }
                    *index = *index + 1;
                    return Ok(e);
                },
                _ => {
                    return Err(
                        String::from_str("Parser: Expression expects closing parenthesis ')'"),
                    );
                },
            }
        },
        _ => {
            return Err(String::from_str("Parser: Unexpected token, expected a term"));
        },
    }
}

/// Parses a multiplicative chain: `term (('*' | '/' | '%') term)*`,
/// allocating one temporary per operator.
#[verifier::loop_isolation(false)]
pub fn parse_multiply_expression(
    tokens: &Vec<Token>,
    index: &mut usize,
    ctx: &mut ParseContext,
) -> (r: Result<Expression, String>)
    requires
        end_terminated(token_views(tokens@)),
        *old(index) < tokens@.len(),
        counters_fit(old(ctx)@, tokens@.len() - *old(index)),
    ensures
        expr_result(
            sp_mult(token_views(tokens@), *old(index) as int, old(ctx)@),
            r,
            *final(index) as int,
            final(ctx)@,
        ),
        r is Ok ==> *old(index) < *final(index) < tokens@.len() && alloc_budget(
            old(ctx)@,
            final(ctx)@,
            *old(index) as int,
            *final(index) as int,
        ),
        r is Ok ==> same_frame(old(ctx)@, final(ctx)@),
    decreases tokens@.len() - *old(index), 3int,
{
    proof {
        lemma_vec_len_bound(tokens);
    }
    let ghost t = token_views(tokens@);
    let ghost i0 = *index as int;
    let ghost c0 = ctx@;
    let e = match parse_term(tokens, index, ctx) {
        Err(m) => {
            return Err(m);
        },
        Ok(e) => e,
    };
    let Expression { mut code, mut name } = e;
    let mut parsing = true;
    while parsing
        invariant
            *index < tokens@.len(),
            i0 < *index,
            alloc_budget(c0, ctx@, i0, *index as int),
            same_frame(c0, ctx@),
            parsing ==> sp_mult(t, i0, c0) == sp_mult_chain(t, *index as int, ctx@, code@, name@),
            !parsing ==> sp_mult(t, i0, c0) == Ok::<ExprOut, Seq<char>>(
                ExprOut { i: *index as int, c: ctx@, code: code@, name: name@ },
            ),
        decreases tokens@.len() - *index, (if parsing { 1int } else { 0int }),
    {
        let op_found: Option<&'static str> = match &tokens[*index] {
            Token::Multiply => Some("%mult"),
            Token::Divide => Some("%div"),
            Token::Modulus => Some("%mod"),
            _ => None,
        };
        match op_found {
            None => {
                parsing = false;
            },
            Some(op) => {
                proof {
                    lemma_not_end_bound(t, *index as int);
                }
                *index = *index + 1;
                let term_out = match parse_term(tokens, index, ctx) {
                    Err(m) => {
                        return Err(m);
                    },
                    Ok(m) => m,
                };
                let tname = ctx.create_temp();
                let instr = String::from_str("%int ").concat(tname.as_str()).concat("\n").concat(
                    op,
                ).concat(" ").concat(tname.as_str()).concat(", ").concat(name.as_str()).concat(
                    ", ",
                ).concat(term_out.name.as_str()).concat("\n");
                code = code.concat(term_out.code.as_str()).concat(instr.as_str());
                name = tname;
            },
        }
    }
    Ok(Expression { code, name })
}

/// Parses an additive chain: `multiplicative (('+' | '-') multiplicative)*`,
/// allocating one temporary per operator.
#[verifier::loop_isolation(false)]
pub fn parse_expression(tokens: &Vec<Token>, index: &mut usize, ctx: &mut ParseContext) -> (r:
    Result<Expression, String>)
    requires
        end_terminated(token_views(tokens@)),
        *old(index) < tokens@.len(),
        counters_fit(old(ctx)@, tokens@.len() - *old(index)),
    ensures
        expr_result(
            sp_expression(token_views(tokens@), *old(index) as int, old(ctx)@),
            r,
            *final(index) as int,
            final(ctx)@,
        ),
        r is Ok ==> *old(index) < *final(index) < tokens@.len() && alloc_budget(
            old(ctx)@,
            final(ctx)@,
            *old(index) as int,
            *final(index) as int,
        ),
        r is Ok ==> same_frame(old(ctx)@, final(ctx)@),
    decreases tokens@.len() - *old(index), 5int,
{
    proof {
        lemma_vec_len_bound(tokens);
    }
    let ghost t = token_views(tokens@);
    let ghost i0 = *index as int;
    let ghost c0 = ctx@;
    let e = match parse_multiply_expression(tokens, index, ctx) {
        Err(m) => {
            return Err(m);
        },
        Ok(e) => e,
    };
    let Expression { mut code, mut name } = e;
    let mut parsing = true;
    while parsing
        invariant
            *index < tokens@.len(),
            i0 < *index,
            alloc_budget(c0, ctx@, i0, *index as int),
            same_frame(c0, ctx@),
            parsing ==> sp_expression(t, i0, c0) == sp_expr_chain(
                t,
                *index as int,
                ctx@,
                code@,
                name@,
            ),
            !parsing ==> sp_expression(t, i0, c0) == Ok::<ExprOut, Seq<char>>(
                ExprOut { i: *index as int, c: ctx@, code: code@, name: name@ },
            ),
        decreases tokens@.len() - *index, (if parsing { 1int } else { 0int }),
    {
        let op_found: Option<&'static str> = match &tokens[*index] {
            Token::Plus => Some("%add"),
            Token::Subtract => Some("%sub"),
            _ => None,
        };
        match op_found {
            None => {
                parsing = false;
            },
            Some(op) => {
                proof {
                    lemma_not_end_bound(t, *index as int);
                }
                *index = *index + 1;
                let term_out = match parse_multiply_expression(tokens, index, ctx) {
                    Err(m) => {
                        return Err(m);
                    },
                    Ok(m) => m,
                };
                let tname = ctx.create_temp();
                let instr = String::from_str("%int ").concat(tname.as_str()).concat("\n").concat(
                    op,
                ).concat(" ").concat(tname.as_str()).concat(", ").concat(name.as_str()).concat(
                    ", ",
                ).concat(term_out.name.as_str()).concat("\n");
                code = code.concat(term_out.code.as_str()).concat(instr.as_str());
                name = tname;
            },
        }
    }
    Ok(Expression { code, name })
}

/// Parses a boolean condition: exactly one comparison between two
/// expressions, lowered into a fresh temporary. Both operands' code is
/// emitted first, so the comparison is one whole instruction line.
#[verifier::loop_isolation(false)]
pub fn parse_bool(tokens: &Vec<Token>, index: &mut usize, ctx: &mut ParseContext) -> (r: Result<
    Expression,
    String,
>)
    requires
        end_terminated(token_views(tokens@)),
        *old(index) < tokens@.len(),
        counters_fit(old(ctx)@, tokens@.len() - *old(index)),
    ensures
        expr_result(
            sp_bool(token_views(tokens@), *old(index) as int, old(ctx)@),
            r,
            *final(index) as int,
            final(ctx)@,
        ),
        r is Ok ==> *old(index) < *final(index) < tokens@.len() && alloc_budget(
            old(ctx)@,
            final(ctx)@,
            *old(index) as int,
            *final(index) as int,
        ),
        r is Ok ==> same_frame(old(ctx)@, final(ctx)@),
    decreases tokens@.len() - *old(index), 6int,
{
    proof {
        lemma_vec_len_bound(tokens);
    }
    let ghost t = token_views(tokens@);
    let ghost i0 = *index as int;
    let ghost c0 = ctx@;
    let left = match parse_expression(tokens, index, ctx) {
        Err(m) => {
            return Err(m);
        },
        Ok(e) => e,
    };
    let tname = ctx.create_temp();
    let op: &'static str = match &tokens[*index] {
        Token::Less => "%lt ",
        Token::LessEqual => "%le ",
        Token::Greater => "%gt ",
        Token::GreaterEqual => "%ge ",
        Token::Equality => "%eq ",
        Token::NotEqual => "%neq ",
        _ => {
            return Err(String::from_str("Parser: Boolean expression expects a comparison operator"));
        },
    };
    proof {
        lemma_not_end_bound(t, *index as int);
    }
    *index = *index + 1;
    let right = match parse_expression(tokens, index, ctx) {
        Err(m) => {
            return Err(m);
        },
        Ok(e) => e,
    };
    let code = left.code.concat(right.code.as_str()).concat("%int ").concat(tname.as_str()).concat(
        "\n",
    ).concat(op).concat(tname.as_str()).concat(", ").concat(left.name.as_str()).concat(
        ", ",
    ).concat(right.name.as_str()).concat("\n");
    Ok(Expression { code, name: tname })
}

/// Parses statements until a closing brace, appending their code to
/// `code`. The brace itself is not consumed.
#[verifier::loop_isolation(false)]
fn parse_stmt_seq(tokens: &Vec<Token>, index: &mut usize, ctx: &mut ParseContext, code: String) -> (r:
    Result<String, String>)
    requires
        end_terminated(token_views(tokens@)),
        *old(index) < tokens@.len(),
        counters_fit(old(ctx)@, tokens@.len() - *old(index)),
    ensures
        stmt_result(
            sp_stmt_seq(token_views(tokens@), *old(index) as int, old(ctx)@, code@),
            r,
            *final(index) as int,
            final(ctx)@,
        ),
        r is Ok ==> *old(index) <= *final(index) < tokens@.len() && alloc_budget(
            old(ctx)@,
            final(ctx)@,
            *old(index) as int,
            *final(index) as int,
        ),
        r is Ok ==> token_views(tokens@)[*final(index) as int] is RightCurly,
        r is Ok ==> final(ctx)@.scopes.len() == old(ctx)@.scopes.len(),
    decreases tokens@.len() - *old(index), 10int,
{
    proof {
        lemma_vec_len_bound(tokens);
    }
    let ghost t = token_views(tokens@);
    let ghost i0 = *index as int;
    let ghost c0 = ctx@;
    let ghost code0 = code@;
    let mut acc = code;
    let mut parsing = true;
    while parsing
        invariant
            *index < tokens@.len(),
            i0 <= *index,
            alloc_budget(c0, ctx@, i0, *index as int),
            ctx@.scopes.len() == c0.scopes.len(),
            parsing ==> sp_stmt_seq(t, i0, c0, code0) == sp_stmt_seq(
                t,
                *index as int,
                ctx@,
                acc@,
            ),
            !parsing ==> t[*index as int] is RightCurly && sp_stmt_seq(t, i0, c0, code0) == Ok::<
                StmtOut,
                Seq<char>,
            >(StmtOut { i: *index as int, c: ctx@, code: acc@ }),
        decreases tokens@.len() - *index, (if parsing { 1int } else { 0int }),
    {
        if matches!(&tokens[*index], Token::RightCurly) {
            parsing = false;
        } else {
            let s = match parse_statement(tokens, index, ctx) {
                Err(m) => {
                    return Err(m);
                },
                Ok(s) => s,
            };
            acc = acc.concat(s.as_str());
        }
    }
    Ok(acc)
}

/// Parses one statement, dispatching on its leading token.
#[verifier::loop_isolation(false)]
pub fn parse_statement(tokens: &Vec<Token>, index: &mut usize, ctx: &mut ParseContext) -> (r:
    Result<String, String>)
    requires
        end_terminated(token_views(tokens@)),
        *old(index) < tokens@.len(),
        counters_fit(old(ctx)@, tokens@.len() - *old(index)),
    ensures
        stmt_result(
            sp_statement(token_views(tokens@), *old(index) as int, old(ctx)@),
            r,
            *final(index) as int,
            final(ctx)@,
        ),
        r is Ok ==> *old(index) < *final(index) < tokens@.len() && alloc_budget(
            old(ctx)@,
            final(ctx)@,
            *old(index) as int,
            *final(index) as int,
        ),
        r is Ok ==> final(ctx)@.scopes.len() == old(ctx)@.scopes.len(),
        !statement_dispatchable(token_views(tokens@)[*old(index) as int]) ==> *final(index)
            == *old(index) && final(ctx)@ == old(ctx)@,
    decreases tokens@.len() - *old(index), 9int,
{
    match &tokens[*index] {
        Token::Int => parse_declaration_statement(tokens, index, ctx),
        Token::Ident(_) => parse_assignment_statement(tokens, index, ctx),
        Token::Return => parse_return_statement(tokens, index, ctx),
        Token::Print => parse_print_statement(tokens, index, ctx),
        Token::Read => parse_read_statement(tokens, index, ctx),
        Token::If => parse_if_statement(tokens, index, ctx),
        Token::While => parse_while_statement(tokens, index, ctx),
        Token::Break => parse_break_statement(tokens, index, ctx),
        Token::Continue => parse_continue_statement(tokens, index, ctx),
        _ => Err(String::from_str("Parser: Invalid statement")),
    }
}

/// Parses a declaration statement: `int x;` or `int[N] a;`. The name
/// must not already be declared in the current scope; an array size of
/// zero is rejected.
#[verifier::loop_isolation(false)]
pub fn parse_declaration_statement(
    tokens: &Vec<Token>,
    index: &mut usize,
    ctx: &mut ParseContext,
) -> (r: Result<String, String>)
    requires
        end_terminated(token_views(tokens@)),
        *old(index) < tokens@.len(),
        counters_fit(old(ctx)@, tokens@.len() - *old(index)),
    ensures
        stmt_result(
            sp_declaration_statement(token_views(tokens@), *old(index) as int, old(ctx)@),
            r,
            *final(index) as int,
            final(ctx)@,
        ),
        r is Err ==> *final(index) == *old(index) && final(ctx)@ == old(ctx)@,
        r is Ok ==> *old(index) < *final(index) < tokens@.len() && alloc_budget(
            old(ctx)@,
            final(ctx)@,
            *old(index) as int,
            *final(index) as int,
        ),
        r is Ok ==> final(ctx)@.scopes.len() == old(ctx)@.scopes.len(),
    decreases tokens@.len() - *old(index), 8int,
{
    proof {
        lemma_vec_len_bound(tokens);
    }
    let ghost t = token_views(tokens@);
    let ghost i0 = *index as int;
    let ghost c0 = ctx@;
    let i = *index;
    match &tokens[i] {
        Token::Int => {},
        _ => {
            return Err(String::from_str("Parser: Declaration statements must begin with 'int' keyword"));
        },
    }
    proof {
        lemma_not_end_bound(t, i0);
    }
    let mut code = String::from_str("%int");
    let mut array_num = String::new();
    let mut ty = SymbolType::Variable;
    let mut j = i + 1;
    if matches!(&tokens[j], Token::LeftBracket) {
        proof {
            lemma_not_end_bound(t, i0 + 1);
        }
        code = code.concat("[]");
        match &tokens[j + 1] {
            Token::Num(num) => {
                if *num == 0 {
                    return Err(String::from_str("Semantic Analysis: Cannot have array sized 0"));
                }
                array_num = String::from_str(", ").concat(i32_string(*num).as_str());
            },
            _ => {
                return Err(
                    String::from_str("Parser: Declarations of arrays must have Type [Num] Ident form"),
                );
            },
        }
        proof {
            lemma_not_end_bound(t, i0 + 2);
        }
        match &tokens[j + 2] {
            Token::RightBracket => {},
            _ => {
                return Err(
                    String::from_str(
                        "Parser: Declarations of Type [Num] Ident form require a closing bracket",
                    ),
                );
            },
        }
        proof {
            lemma_not_end_bound(t, i0 + 3);
        }
        j = j + 3;
        ty = SymbolType::Array;
    }
    match &tokens[j] {
        Token::Ident(name) => {
            if ctx.find_symbol(name) {
                return Err(
                    String::from_str("Semantic Analysis: Found duplicate variable ").concat(
                        name.as_str(),
                    ),
                );
            }
            proof {
                lemma_not_end_bound(t, j as int);
            }
            match &tokens[j + 1] {
                Token::Semicolon => {},
                _ => {
                    return Err(
                        String::from_str("Parser: Declarations statements must end with a semicolon"),
                    );
                },
            }
            ctx.add_symbol(name.clone(), ty);
            code = code.concat(" ").concat(name.as_str()).concat(array_num.as_str()).concat("\n");
            proof {
                lemma_not_end_bound(t, j + 1);
            }
            *index = j + 2;
            proof {
                let m = sp_declaration_statement(t, i0, c0);
                assert(m is Ok);
                assert(code@ =~= m->Ok_0.code);
            }
            Ok(code)
        },
        _ => Err(String::from_str("Parser: Declarations must have an identifier")),
    }
}

/// Parses an assignment: `x = e;` or `a[e1] = e2;`. The target must be
/// declared; an indexed target must be an array.
#[verifier::loop_isolation(false)]
pub fn parse_assignment_statement(
    tokens: &Vec<Token>,
    index: &mut usize,
    ctx: &mut ParseContext,
) -> (r: Result<String, String>)
    requires
        end_terminated(token_views(tokens@)),
        *old(index) < tokens@.len(),
        counters_fit(old(ctx)@, tokens@.len() - *old(index)),
    ensures
        stmt_result(
            sp_assignment_statement(token_views(tokens@), *old(index) as int, old(ctx)@),
            r,
            *final(index) as int,
            final(ctx)@,
        ),
        r is Ok ==> *old(index) < *final(index) < tokens@.len() && alloc_budget(
            old(ctx)@,
            final(ctx)@,
            *old(index) as int,
            *final(index) as int,
        ),
        r is Ok ==> final(ctx)@.scopes.len() == old(ctx)@.scopes.len(),
    decreases tokens@.len() - *old(index), 8int,
{
    proof {
        lemma_vec_len_bound(tokens);
    }
    let ghost t = token_views(tokens@);
    let ghost i0 = *index as int;
    let ghost c0 = ctx@;
    let i = *index;
    let mut code = String::new();
    let dest: String;
    match &tokens[i] {
        Token::Ident(ident) => {
            if !ctx.find_symbol(ident) {
                return Err(
                    String::from_str("Semantic Analysis: Variable ").concat(ident.as_str()).concat(
                        " not declared before assignment",
                    ),
                );
            }
            proof {
                lemma_not_end_bound(t, i0);
            }
            if matches!(&tokens[i + 1], Token::LeftBracket) {
                let kind = ctx.find_symbol_type(ident);
                if kind != SymbolType::Array {
                    return Err(
                        String::from_str("Semantic Analysis: ").concat(ident.as_str()).concat(
                            " is not array",
                        ),
                    );
                }
                proof {
                    lemma_not_end_bound(t, i0 + 1);
                }
                *index = i + 2;
                let e = match parse_expression(tokens, index, ctx) {
                    Err(m) => {
                        return Err(m);
                    },
                    Ok(e) => e,
                };
                match &tokens[*index] {
                    Token::RightBracket => {},
                    _ => {
                        return Err(
                            String::from_str(
                                "Parser: Array assignments must have a closing bracket ']'",
                            ),
                        );
                    },
                }
                dest = String::from_str("[").concat(ident.as_str()).concat(" + ").concat(
                    e.name.as_str(),
                ).concat("]");
                code = e.code;
                proof {
                    lemma_not_end_bound(t, *index as int);
                }
                *index = *index + 1;
            } else {
                dest = ident.clone();
                *index = i + 1;
            }
        },
        _ => {
            return Err(String::from_str("Parser: Assignment statements must begin with an identifier"));
        },
    }
    match &tokens[*index] {
        Token::Assign => {},
        _ => {
            return Err(String::from_str("Parser: Assignment statement is missing the '=' operator"));
        },
    }
    proof {
        lemma_not_end_bound(t, *index as int);
    }
    *index = *index + 1;
    let e2 = match parse_expression(tokens, index, ctx) {
        Err(m) => {
            return Err(m);
        },
        Ok(e) => e,
    };
    match &tokens[*index] {
        Token::Semicolon => {},
        _ => {
            return Err(String::from_str("Parser: Assignment statements must end with a semicolon ';'"));
        },
    }
    proof {
        lemma_not_end_bound(t, *index as int);
    }
    *index = *index + 1;
    let mov = String::from_str("%mov ").concat(dest.as_str()).concat(", ").concat(
        e2.name.as_str(),
    ).concat("\n");
    code = code.concat(e2.code.as_str()).concat(mov.as_str());
    proof {
        let m = sp_assignment_statement(t, i0, c0);
        assert(m is Ok);
        assert(code@ =~= m->Ok_0.code);
    }
    Ok(code)
}

/// Parses `return e;`.
#[verifier::loop_isolation(false)]
pub fn parse_return_statement(tokens: &Vec<Token>, index: &mut usize, ctx: &mut ParseContext) -> (r:
    Result<String, String>)
    requires
        end_terminated(token_views(tokens@)),
        *old(index) < tokens@.len(),
        counters_fit(old(ctx)@, tokens@.len() - *old(index)),
    ensures
        stmt_result(
            sp_return_statement(token_views(tokens@), *old(index) as int, old(ctx)@),
            r,
            *final(index) as int,
            final(ctx)@,
        ),
        r is Ok ==> *old(index) < *final(index) < tokens@.len() && alloc_budget(
            old(ctx)@,
            final(ctx)@,
            *old(index) as int,
            *final(index) as int,
        ),
        r is Ok ==> final(ctx)@.scopes.len() == old(ctx)@.scopes.len(),
    decreases tokens@.len() - *old(index), 8int,
{
    proof {
        lemma_vec_len_bound(tokens);
    }
    let ghost t = token_views(tokens@);
    let ghost i0 = *index as int;
    let ghost c0 = ctx@;
    match &tokens[*index] {
        Token::Return => {},
        _ => {
            return Err(String::from_str("Parser: Return statements must begin with a return keyword"));
        },
    }
    proof {
        lemma_not_end_bound(t, i0);
    }
    *index = *index + 1;
    let e = match parse_expression(tokens, index, ctx) {
        Err(m) => {
            return Err(m);
        },
        Ok(e) => e,
    };
    match &tokens[*index] {
        Token::Semicolon => {},
        _ => {
            return Err(String::from_str("Parser: Return statements must end with a semicolon"));
        },
    }
    proof {
        lemma_not_end_bound(t, *index as int);
    }
    *index = *index + 1;
    let instr = String::from_str("%ret ").concat(e.name.as_str()).concat("\n");
    let code = e.code.concat(instr.as_str());
    Ok(code)
}

/// Parses `print e;`.
#[verifier::loop_isolation(false)]
pub fn parse_print_statement(tokens: &Vec<Token>, index: &mut usize, ctx: &mut ParseContext) -> (r:
    Result<String, String>)
    requires
        end_terminated(token_views(tokens@)),
        *old(index) < tokens@.len(),
        counters_fit(old(ctx)@, tokens@.len() - *old(index)),
    ensures
        stmt_result(
            sp_print_statement(token_views(tokens@), *old(index) as int, old(ctx)@),
            r,
            *final(index) as int,
            final(ctx)@,
        ),
        r is Ok ==> *old(index) < *final(index) < tokens@.len() && alloc_budget(
            old(ctx)@,
            final(ctx)@,
            *old(index) as int,
            *final(index) as int,
        ),
        r is Ok ==> final(ctx)@.scopes.len() == old(ctx)@.scopes.len(),
    decreases tokens@.len() - *old(index), 8int,
{
    proof {
        lemma_vec_len_bound(tokens);
    }
    let ghost t = token_views(tokens@);
    let ghost i0 = *index as int;
    let ghost c0 = ctx@;
    match &tokens[*index] {
        Token::Print => {},
        _ => {
            return Err(String::from_str("Parser: Print statements must begin with the 'print' keyword"));
        },
    }
    proof {
        lemma_not_end_bound(t, i0);
    }
    *index = *index + 1;
    let e = match parse_expression(tokens, index, ctx) {
        Err(m) => {
            return Err(m);
        },
        Ok(e) => e,
    };
    match &tokens[*index] {
        Token::Semicolon => {},
        _ => {
            return Err(String::from_str("Parser: Print statements must end with a semicolon ';'"));
        },
    }
    proof {
        lemma_not_end_bound(t, *index as int);
    }
    *index = *index + 1;
    let instr = String::from_str("%out ").concat(e.name.as_str()).concat("\n");
    let code = e.code.concat(instr.as_str());
    Ok(code)
}

/// Parses `read e;`. Its missing-semicolon message names print
/// statements.
#[verifier::loop_isolation(false)]
pub fn parse_read_statement(tokens: &Vec<Token>, index: &mut usize, ctx: &mut ParseContext) -> (r:
    Result<String, String>)
    requires
        end_terminated(token_views(tokens@)),
        *old(index) < tokens@.len(),
        counters_fit(old(ctx)@, tokens@.len() - *old(index)),
    ensures
        stmt_result(
            sp_read_statement(token_views(tokens@), *old(index) as int, old(ctx)@),
            r,
            *final(index) as int,
            final(ctx)@,
        ),
        r is Ok ==> *old(index) < *final(index) < tokens@.len() && alloc_budget(
            old(ctx)@,
            final(ctx)@,
            *old(index) as int,
            *final(index) as int,
        ),
        r is Ok ==> final(ctx)@.scopes.len() == old(ctx)@.scopes.len(),
    decreases tokens@.len() - *old(index), 8int,
{
    proof {
        lemma_vec_len_bound(tokens);
    }
    let ghost t = token_views(tokens@);
    let ghost i0 = *index as int;
    let ghost c0 = ctx@;
    match &tokens[*index] {
        Token::Read => {},
        _ => {
            return Err(String::from_str("Parser: Read statements must begin with the 'read' keyword"));
        },
    }
    proof {
        lemma_not_end_bound(t, i0);
    }
    *index = *index + 1;
    let e = match parse_expression(tokens, index, ctx) {
        Err(m) => {
            return Err(m);
        },
        Ok(e) => e,
    };
    match &tokens[*index] {
        Token::Semicolon => {},
        _ => {
            return Err(String::from_str("Parser: Print statements must end with a semicolon ';'"));
        },
    }
    proof {
        lemma_not_end_bound(t, *index as int);
    }
    *index = *index + 1;
    let instr = String::from_str("%input ").concat(e.name.as_str()).concat("\n");
    let code = e.code.concat(instr.as_str());
    Ok(code)
}

/// Parses `break;`: allowed only inside a loop, and jumps to the
/// innermost loop's end label.
#[verifier::loop_isolation(false)]
pub fn parse_break_statement(tokens: &Vec<Token>, index: &mut usize, ctx: &mut ParseContext) -> (r:
    Result<String, String>)
    requires
        end_terminated(token_views(tokens@)),
        *old(index) < tokens@.len(),
        counters_fit(old(ctx)@, tokens@.len() - *old(index)),
    ensures
        stmt_result(
            sp_break_statement(token_views(tokens@), *old(index) as int, old(ctx)@),
            r,
            *final(index) as int,
            final(ctx)@,
        ),
        r is Err ==> *final(index) == *old(index) && final(ctx)@ == old(ctx)@,
        r is Ok ==> *old(index) < *final(index) < tokens@.len() && alloc_budget(
            old(ctx)@,
            final(ctx)@,
            *old(index) as int,
            *final(index) as int,
        ),
        r is Ok ==> final(ctx)@.scopes.len() == old(ctx)@.scopes.len(),
    decreases tokens@.len() - *old(index), 8int,
{
    proof {
        lemma_vec_len_bound(tokens);
    }
    let ghost t = token_views(tokens@);
    let ghost i0 = *index as int;
    if !ctx.in_loop {
        return Err(String::from_str("Semantic Analysis: break statement not within a loop"));
    }
    let i = *index;
    match &tokens[i] {
        Token::Break => {},
        _ => {
            return Err(String::from_str("Parser: Expected 'break' keyword"));
        },
    }
    proof {
        lemma_not_end_bound(t, i0);
    }
    match &tokens[i + 1] {
        Token::Semicolon => {},
        _ => {
            return Err(String::from_str("Parser: Break statements must end with a semicolon ';'"));
        },
    }
    if ctx.current_end_label.as_str().is_empty() {
        return Err(String::from_str("Error: CURRENT_END_LABEL is empty."));
    }
    proof {
        lemma_not_end_bound(t, i0 + 1);
    }
    *index = i + 2;
    let code = String::from_str("%jmp ").concat(ctx.current_end_label.as_str()).concat("\n");
    Ok(code)
}

/// Parses `continue;`: allowed only inside a loop. It jumps to the same
/// label as `break`: the innermost loop's end label.
#[verifier::loop_isolation(false)]
pub fn parse_continue_statement(
    tokens: &Vec<Token>,
    index: &mut usize,
    ctx: &mut ParseContext,
) -> (r: Result<String, String>)
    requires
        end_terminated(token_views(tokens@)),
        *old(index) < tokens@.len(),
        counters_fit(old(ctx)@, tokens@.len() - *old(index)),
    ensures
        stmt_result(
            sp_continue_statement(token_views(tokens@), *old(index) as int, old(ctx)@),
            r,
            *final(index) as int,
            final(ctx)@,
        ),
        r is Err ==> *final(index) == *old(index) && final(ctx)@ == old(ctx)@,
        r is Ok ==> *old(index) < *final(index) < tokens@.len() && alloc_budget(
            old(ctx)@,
            final(ctx)@,
            *old(index) as int,
            *final(index) as int,
        ),
        r is Ok ==> final(ctx)@.scopes.len() == old(ctx)@.scopes.len(),
    decreases tokens@.len() - *old(index), 8int,
{
    proof {
        lemma_vec_len_bound(tokens);
    }
    let ghost t = token_views(tokens@);
    let ghost i0 = *index as int;
    if !ctx.in_loop {
        return Err(String::from_str("Error: continue statement not within a loop"));
    }
    let i = *index;
    match &tokens[i] {
        Token::Continue => {},
        _ => {
            return Err(String::from_str("Parser: Expected 'continue' keyword"));
        },
    }
    proof {
        lemma_not_end_bound(t, i0);
    }
    match &tokens[i + 1] {
        Token::Semicolon => {},
        _ => {
            return Err(String::from_str("Parser: Continue statements must end with a semicolon ';'"));
        },
    }
    if ctx.current_end_label.as_str().is_empty() {
        return Err(String::from_str("Error: CURRENT_END_LABEL is empty."));
    }
    proof {
        lemma_not_end_bound(t, i0 + 1);
    }
    *index = i + 2;
    let code = String::from_str("%jmp ").concat(ctx.current_end_label.as_str()).concat("\n");
    Ok(code)
}

/// Parses a while loop. The end label is allocated before the start
/// label; the loop context is saved and restored around the body; the
/// emitted code has no back edge from the body's end to the start label.
#[verifier::loop_isolation(false)]
pub fn parse_while_statement(tokens: &Vec<Token>, index: &mut usize, ctx: &mut ParseContext) -> (r:
    Result<String, String>)
    requires
        end_terminated(token_views(tokens@)),
        *old(index) < tokens@.len(),
        counters_fit(old(ctx)@, tokens@.len() - *old(index)),
    ensures
        stmt_result(
            sp_while_statement(token_views(tokens@), *old(index) as int, old(ctx)@),
            r,
            *final(index) as int,
            final(ctx)@,
        ),
        r is Ok ==> *old(index) < *final(index) < tokens@.len() && alloc_budget(
            old(ctx)@,
            final(ctx)@,
            *old(index) as int,
            *final(index) as int,
        ),
        r is Ok ==> final(ctx)@.scopes.len() == old(ctx)@.scopes.len(),
    decreases tokens@.len() - *old(index), 8int,
{
    proof {
        lemma_vec_len_bound(tokens);
    }
    let ghost t = token_views(tokens@);
    let ghost i0 = *index as int;
    let ghost c0 = ctx@;
    let i = *index;
    let end_label = ctx.create_label();
    let start_label = ctx.create_label();
    let hold = ctx.current_end_label.clone();
    ctx.in_loop = true;
    ctx.current_end_label = end_label.clone();
    proof {
        assert(ctx@ =~= (CtxV {
            labels: c0.labels + 2,
            in_loop: true,
            end_label: label_name(c0.labels),
            ..c0
        }));
    }
    match &tokens[i] {
        Token::While => {},
        _ => {
            return Err(String::from_str("Parser: Expected 'while' keyword"));
        },
    }
    proof {
        lemma_not_end_bound(t, i0);
    }
    *index = i + 1;
    let b = match parse_bool(tokens, index, ctx) {
        Err(m) => {
            return Err(m);
        },
        Ok(b) => b,
    };
    let branch = String::from_str("%branch_ifn ").concat(b.name.as_str()).concat(", ").concat(
        end_label.as_str(),
    ).concat("\n");
    let code1 = start_label.concat("\n").concat(b.code.as_str()).concat(branch.as_str());
    match &tokens[*index] {
        Token::LeftCurly => {},
        _ => {
            return Err(String::from_str("Parser: While statement execution code must begin with '{'"));
        },
    }
    proof {
        lemma_not_end_bound(t, *index as int);
    }
    *index = *index + 1;
    let body = match parse_stmt_seq(tokens, index, ctx, code1) {
        Err(m) => {
            return Err(m);
        },
        Ok(s) => s,
    };
    match &tokens[*index] {
        Token::RightCurly => {},
        _ => {
            return Err(String::from_str("Parser: While statement expects '}'"));
        },
    }
    proof {
        lemma_not_end_bound(t, *index as int);
    }
    *index = *index + 1;
    let code = body.concat(end_label.as_str()).concat("\n");
    if hold.as_str().is_empty() {
        ctx.in_loop = false;
    }
    ctx.current_end_label = hold;
    proof {
        let m = sp_while_statement(t, i0, c0);
        assert(m is Ok);
        assert(ctx@ =~= m->Ok_0.c);
    }
    Ok(code)
}

/// Parses an if statement with an optional else block. The emitted code
/// has no jump from the end of the true branch past the else region.
#[verifier::loop_isolation(false)]
#[verifier::rlimit(100)]
pub fn parse_if_statement(tokens: &Vec<Token>, index: &mut usize, ctx: &mut ParseContext) -> (r:
    Result<String, String>)
    requires
        end_terminated(token_views(tokens@)),
        *old(index) < tokens@.len(),
        counters_fit(old(ctx)@, tokens@.len() - *old(index)),
    ensures
        stmt_result(
            sp_if_statement(token_views(tokens@), *old(index) as int, old(ctx)@),
            r,
            *final(index) as int,
            final(ctx)@,
        ),
        r is Ok ==> *old(index) < *final(index) < tokens@.len() && alloc_budget(
            old(ctx)@,
            final(ctx)@,
            *old(index) as int,
            *final(index) as int,
        ),
        r is Ok ==> final(ctx)@.scopes.len() == old(ctx)@.scopes.len(),
    decreases tokens@.len() - *old(index), 8int,
{
    proof {
        lemma_vec_len_bound(tokens);
    }
    let ghost t = token_views(tokens@);
    let ghost i0 = *index as int;
    let ghost c0 = ctx@;
    let i = *index;
    let end_label = ctx.create_label();
    let false_label = ctx.create_label();
    proof {
        assert(ctx@ =~= (CtxV { labels: c0.labels + 2, ..c0 }));
    }
    match &tokens[i] {
        Token::If => {},
        _ => {
            return Err(String::from_str("Parser: If statement expects 'if' keyword"));
        },
    }
    proof {
        lemma_not_end_bound(t, i0);
    }
    *index = i + 1;
    let b = match parse_bool(tokens, index, ctx) {
        Err(m) => {
            return Err(m);
        },
        Ok(b) => b,
    };
    let branch = String::from_str("%branch_ifn ").concat(b.name.as_str()).concat(", ").concat(
        false_label.as_str(),
    ).concat("\n");
    let code1 = b.code.concat(branch.as_str());
    match &tokens[*index] {
        Token::LeftCurly => {},
        _ => {
            return Err(String::from_str("Parser: If statement execution code must begin with '{'"));
        },
    }
    proof {
        lemma_not_end_bound(t, *index as int);
    }
    *index = *index + 1;
    let body = match parse_stmt_seq(tokens, index, ctx, code1) {
        Err(m) => {
            return Err(m);
        },
        Ok(s) => s,
    };
    match &tokens[*index] {
        Token::RightCurly => {},
        _ => {
            return Err(String::from_str("Parser: If statement expects '}'"));
        },
    }
    proof {
        lemma_not_end_bound(t, *index as int);
    }
    *index = *index + 1;
    let code2 = body.concat(false_label.as_str()).concat("\n");
    parse_if_tail(tokens, index, ctx, code2, end_label)
}

/// Parses the optional else block of an if statement, entered just past
/// the true branch's closing brace, and closes the statement with its
/// end label.
#[verifier::rlimit(100)]
#[verifier::spinoff_prover]
fn parse_if_tail(
    tokens: &Vec<Token>,
    index: &mut usize,
    ctx: &mut ParseContext,
    code2: String,
    end_label: String,
) -> (r: Result<String, String>)
    requires
        end_terminated(token_views(tokens@)),
        *old(index) < tokens@.len(),
        counters_fit(old(ctx)@, tokens@.len() - *old(index)),
    ensures
        stmt_result(
            sp_if_else(
                token_views(tokens@),
                *old(index) as int,
                old(ctx)@,
                code2@,
                end_label@,
            ),
            r,
            *final(index) as int,
            final(ctx)@,
        ),
        r is Ok ==> *old(index) <= *final(index) < tokens@.len() && alloc_budget(
            old(ctx)@,
            final(ctx)@,
            *old(index) as int,
            *final(index) as int,
        ),
        r is Ok ==> final(ctx)@.scopes.len() == old(ctx)@.scopes.len(),
    decreases tokens@.len() - *old(index), 7int,
{
    proof {
        lemma_vec_len_bound(tokens);
    }
    let ghost t = token_views(tokens@);
    if *index < tokens.len() && matches!(&tokens[*index], Token::Else) {
        proof {
            lemma_not_end_bound(t, *index as int);
        }
        *index = *index + 1;
        match &tokens[*index] {
            Token::LeftCurly => {},
            _ => {
                return Err(
                    String::from_str("Parser: Else statement execution code must begin with '{'"),
                );
            },
        }
        proof {
            lemma_not_end_bound(t, *index as int);
        }
        *index = *index + 1;
        let body2 = match parse_stmt_seq(tokens, index, ctx, code2) {
            Err(m) => {
                return Err(m);
            },
            Ok(s) => s,
        };
        match &tokens[*index] {
            Token::RightCurly => {},
            _ => {
                return Err(String::from_str("Parser: Else statement expects '}' after else block"));
            },
        }
        proof {
            lemma_not_end_bound(t, *index as int);
        }
        *index = *index + 1;
        let code = body2.concat(end_label.as_str()).concat("\n");
        Ok(code)
    } else {
        let code = code2.concat(end_label.as_str()).concat("\n");
        Ok(code)
    }
}

/// Parses one parameter declaration in a function header: `int x` or
/// `int[N] x`. The emitted code names the parameter without its size.
#[verifier::loop_isolation(false)]
pub fn parse_declaration(tokens: &Vec<Token>, index: &mut usize, ctx: &mut ParseContext) -> (r:
    Result<String, String>)
    requires
        end_terminated(token_views(tokens@)),
        *old(index) < tokens@.len(),
        counters_fit(old(ctx)@, tokens@.len() - *old(index)),
    ensures
        stmt_result(
            sp_param_decl(token_views(tokens@), *old(index) as int, old(ctx)@),
            r,
            *final(index) as int,
            final(ctx)@,
        ),
        r is Err ==> *final(index) == *old(index) && final(ctx)@ == old(ctx)@,
        r is Ok ==> *old(index) < *final(index) < tokens@.len() && alloc_budget(
            old(ctx)@,
            final(ctx)@,
            *old(index) as int,
            *final(index) as int,
        ),
        r is Ok ==> final(ctx)@.scopes.len() == old(ctx)@.scopes.len(),
{
    proof {
        lemma_vec_len_bound(tokens);
    }
    let ghost t = token_views(tokens@);
    let ghost i0 = *index as int;
    let ghost c0 = ctx@;
    let i = *index;
    match &tokens[i] {
        Token::Int => {},
        _ => {
            return Err(
                String::from_str("Parser: Function declaration statements must begin with 'int' keyword"),
            );
        },
    }
    proof {
        lemma_not_end_bound(t, i0);
    }
    let mut j = i + 1;
    let mut ty = SymbolType::Variable;
    if matches!(&tokens[j], Token::LeftBracket) {
        proof {
            lemma_not_end_bound(t, i0 + 1);
        }
        match &tokens[j + 1] {
            Token::Num(num) => {
                if *num == 0 {
                    return Err(String::from_str("Semantic Analysis: Cannot have array sized 0"));
                }
            },
            _ => {
                return Err(
                    String::from_str(
                        "Parser: Function declarations of arrays must have Type [Num] Ident form",
                    ),
                );
            },
        }
        proof {
            lemma_not_end_bound(t, i0 + 2);
        }
        match &tokens[j + 2] {
            Token::RightBracket => {},
            _ => {
                return Err(
                    String::from_str(
                        "Parser: Function declarations of arrays in Type [Num] Ident form require a closing bracket",
                    ),
                );
            },
        }
        proof {
            lemma_not_end_bound(t, i0 + 3);
        }
        j = j + 3;
        ty = SymbolType::Array;
    }
    match &tokens[j] {
        Token::Ident(name) => {
            if ctx.find_symbol(name) {
                return Err(
                    String::from_str("Semantic Analysis: Found duplicate variable ").concat(
                        name.as_str(),
                    ),
                );
            }
            ctx.add_symbol(name.clone(), ty);
            proof {
                lemma_not_end_bound(t, j as int);
            }
            *index = j + 1;
            let code = String::from_str("%int ").concat(name.as_str());
            Ok(code)
        },
        _ => Err(String::from_str("Parser: Function declarations must have an identifier")),
    }
}

/// Parses one function: `func name ( params ) { statements }`. The
/// function's name is declared in the enclosing scope; its parameters
/// and locals live in a fresh scope discarded at the closing brace.
#[verifier::loop_isolation(false)]
pub fn parse_function(tokens: &Vec<Token>, index: &mut usize, ctx: &mut ParseContext) -> (r: Result<
    String,
    String,
>)
    requires
        end_terminated(token_views(tokens@)),
        *old(index) < tokens@.len(),
        counters_fit(old(ctx)@, tokens@.len() - *old(index)),
    ensures
        stmt_result(
            sp_function(token_views(tokens@), *old(index) as int, old(ctx)@),
            r,
            *final(index) as int,
            final(ctx)@,
        ),
        r is Ok ==> *old(index) < *final(index) < tokens@.len() && alloc_budget(
            old(ctx)@,
            final(ctx)@,
            *old(index) as int,
            *final(index) as int,
        ),
        r is Ok ==> final(ctx)@.scopes.len() == old(ctx)@.scopes.len(),
{
    proof {
        lemma_vec_len_bound(tokens);
    }
    let ghost t = token_views(tokens@);
    let ghost i0 = *index as int;
    let ghost c0 = ctx@;
    let i = *index;
    match &tokens[i] {
        Token::Func => {},
        _ => {
            return Err(String::from_str("Parser: Functions must begin with 'func'"));
        },
    }
    proof {
        lemma_not_end_bound(t, i0);
    }
    match &tokens[i + 1] {
        Token::Ident(name) => {
            if ctx.find_symbol(name) {
                return Err(
                    String::from_str("Semantic Analysis: Found duplicate function ").concat(
                        name.as_str(),
                    ),
                );
            }
            ctx.add_symbol(name.clone(), SymbolType::Function);
            let code0 = String::from_str("%func ").concat(name.as_str()).concat("(");
            proof {
                lemma_not_end_bound(t, i0 + 1);
            }
            match &tokens[i + 2] {
                Token::LeftParen => {},
                _ => {
                    return Err(String::from_str("Parser: Funtion expects '('"));
                },
            }
            ctx.enter_scope();
            let ghost c2 = ctx@;
            proof {
                lemma_not_end_bound(t, i0 + 2);
            }
            *index = i + 3;
            let ghost code0v = code0@;
            let mut code = code0;
            let mut parsing = true;
            while parsing
                invariant
                    *index < tokens@.len(),
                    i0 + 3 <= *index,
                    alloc_budget(c2, ctx@, i0 + 3, *index as int),
                    ctx@.scopes.len() == c2.scopes.len(),
                    parsing ==> sp_params(t, i0 + 3, c2, code0v) == sp_params(
                        t,
                        *index as int,
                        ctx@,
                        code@,
                    ),
                    !parsing ==> sp_params(t, i0 + 3, c2, code0v) == Ok::<StmtOut, Seq<char>>(
                        StmtOut { i: *index as int, c: ctx@, code: code@ },
                    ),
                decreases tokens@.len() - *index, (if parsing { 1int } else { 0int }),
            {
                if matches!(&tokens[*index], Token::RightParen) {
                    parsing = false;
                } else {
                    let d = match parse_declaration(tokens, index, ctx) {
                        Err(m) => {
                            return Err(m);
                        },
                        Ok(d) => d,
                    };
                    code = code.concat(d.as_str());
                    if matches!(&tokens[*index], Token::Comma) {
                        proof {
                            lemma_not_end_bound(t, *index as int);
                        }
                        *index = *index + 1;
                        code = code.concat(", ");
                    } else {
                        parsing = false;
                    }
                }
            }
            match &tokens[*index] {
                Token::RightParen => {},
                _ => {
                    return Err(String::from_str("Parser: Function expects ')'"));
                },
            }
            proof {
                lemma_not_end_bound(t, *index as int);
            }
            *index = *index + 1;
            code = code.concat(")\n");
            match &tokens[*index] {
                Token::LeftCurly => {},
                _ => {
                    return Err(String::from_str("Parser: Function expects '{'"));
                },
            }
            proof {
                lemma_not_end_bound(t, *index as int);
            }
            *index = *index + 1;
            let body = match parse_stmt_seq(tokens, index, ctx, code) {
                Err(m) => {
                    return Err(m);
                },
                Ok(s) => s,
            };
            match &tokens[*index] {
                Token::RightCurly => {},
                _ => {
                    return Err(String::from_str("Parser: Function expects '}'"));
                },
            }
            proof {
                lemma_not_end_bound(t, *index as int);
            }
            *index = *index + 1;
            ctx.exit_scope();
            let out = body.concat("%endfunc\n");
            proof {
                let m = sp_function(t, i0, c0);
                assert(m is Ok);
                assert(ctx@ =~= m->Ok_0.c);
                assert(out@ =~= m->Ok_0.code);
            }
            Ok(out)
        },
        _ => Err(String::from_str("Parser: Functions must have a function identifier")),
    }
}

/// Parses a whole program: functions until the `End` sentinel. The
/// program must declare a function named `main`. A fresh parse context
/// is created here, so repeated invocations are independent and
/// deterministic.
#[verifier::loop_isolation(false)]
pub fn parse_program(tokens: &Vec<Token>, index: &mut usize) -> (r: Result<String, String>)
    requires
        end_terminated(token_views(tokens@)),
        *old(index) < tokens@.len(),
    ensures
        ({
            let m = sp_program(token_views(tokens@), *old(index) as int);
            match r {
                Ok(code) => m is Ok && code@ == m->Ok_0.1 && *final(index) as int == m->Ok_0.0,
                Err(e) => m is Err && e@ == m->Err_0,
            }
        }),
{
    proof {
        lemma_vec_len_bound(tokens);
    }
    let ghost t = token_views(tokens@);
    let ghost i0 = *index as int;
    let mut ctx = ParseContext::new();
    ctx.enter_scope();
    proof {
        assert(ctx@.scopes =~= initial_ctx().scopes);
        assert(ctx@ =~= initial_ctx());
    }
    let mut code = String::new();
    let mut parsing = true;
    while parsing
        invariant
            *index < tokens@.len(),
            i0 <= *index,
            ctx@.scopes.len() == 1,
            alloc_budget(initial_ctx(), ctx@, i0, *index as int),
            parsing ==> sp_functions(t, i0, initial_ctx(), Seq::empty()) == sp_functions(
                t,
                *index as int,
                ctx@,
                code@,
            ),
            !parsing ==> sp_functions(t, i0, initial_ctx(), Seq::empty()) == Ok::<
                StmtOut,
                Seq<char>,
            >(StmtOut { i: *index as int, c: ctx@, code: code@ }),
        decreases tokens@.len() - *index, (if parsing { 1int } else { 0int }),
    {
        if at_end(tokens, *index) {
            parsing = false;
        } else {
            proof {
                assert(counters_fit(ctx@, tokens@.len() - *index));
            }
            let f = match parse_function(tokens, index, &mut ctx) {
                Err(m) => {
                    return Err(m);
                },
                Ok(f) => f,
            };
            code = code.concat(f.as_str());
        }
    }
    let main_name = String::from_str("main");
    if !ctx.find_symbol(&main_name) {
        return Err(String::from_str("Semantic Analysis: Did not find main function"));
    }
    ctx.exit_scope();
    Ok(code)
}

/// Whether the token at `index` is the `End` sentinel.
pub fn at_end(tokens: &Vec<Token>, index: usize) -> (r: bool)
    requires
        index < tokens@.len(),
    ensures
        r == (token_views(tokens@)[index as int] is End),
{
    match &tokens[index] {
        Token::End => true,
        _ => false,
    }
}

} // verus!
