//! Shape of the emitted intermediate representation: every piece of
//! code the semantic parse emits is a sequence of newline-terminated
//! lines, and over a whole program the `%func` header lines and the
//! `%endfunc` lines balance exactly.

use vstd::prelude::*;

use crate::numeral::dec_digits;
use crate::numeral::int_digits;
use crate::phases::lexer::TokenV;
use crate::phases::lexer::ident_end;
use crate::phases::lexer::lemma_ident_end;
use crate::phases::lexer::spec_create_identifier;
use crate::phases::lexer::spec_keyword;
use crate::phases::lexer::spec_lex_from;
use crate::phases::marks::begins_with;
use crate::phases::marks::lemma_count_concat;
use crate::phases::marks::lemma_count_one_line;
use crate::phases::marks::mark_count;
use crate::phases::marks::marker_ok;
use crate::phases::marks::nl_terminated;
use crate::phases::marks::no_newline;
use crate::phases::marks::one_line;
use crate::phases::semantic_parser::CtxV;
use crate::phases::semantic_parser::ExprOut;
use crate::phases::semantic_parser::StmtOut;
use crate::phases::semantic_parser::end_terminated;
use crate::phases::semantic_parser::label_name;
use crate::phases::semantic_parser::lemma_not_end_bound;
use crate::phases::semantic_parser::sp_declare;
use crate::phases::semantic_parser::sp_find;
use crate::phases::semantic_parser::SymbolType;
use crate::phases::semantic_parser::sp_assignment_statement;
use crate::phases::semantic_parser::sp_assignment_tail;
use crate::phases::semantic_parser::sp_bool;
use crate::phases::semantic_parser::sp_break_statement;
use crate::phases::semantic_parser::sp_call_args;
use crate::phases::semantic_parser::sp_continue_statement;
use crate::phases::semantic_parser::sp_declaration_statement;
use crate::phases::semantic_parser::sp_expr_chain;
use crate::phases::semantic_parser::sp_expression;
use crate::phases::semantic_parser::sp_function;
use crate::phases::semantic_parser::sp_functions;
use crate::phases::semantic_parser::sp_if_else;
use crate::phases::semantic_parser::sp_if_statement;
use crate::phases::semantic_parser::sp_mult;
use crate::phases::semantic_parser::sp_mult_chain;
use crate::phases::semantic_parser::sp_param_decl;
use crate::phases::semantic_parser::sp_params;
use crate::phases::semantic_parser::sp_print_statement;
use crate::phases::semantic_parser::sp_program;
use crate::phases::semantic_parser::sp_read_statement;
use crate::phases::semantic_parser::sp_return_statement;
use crate::phases::semantic_parser::sp_statement;
use crate::phases::semantic_parser::sp_stmt_seq;
use crate::phases::semantic_parser::sp_term;
use crate::phases::semantic_parser::sp_while_statement;
use crate::phases::semantic_parser::temp_name;
use crate::phases::semantic_parser::toks_rem;

verus! {

/// The `%func` header marker: a line beginning this way opens a
/// function block.
pub open spec fn func_marker() -> Seq<char> {
    "%func "@
}

/// The `%endfunc` line, with its terminating newline.
pub open spec fn endfunc_marker() -> Seq<char> {
    "%endfunc\n"@
}

/// Statement- and expression-level code: newline-terminated, with no
/// function header and no `%endfunc` line.
pub open spec fn tidy_code(s: Seq<char>) -> bool {
    nl_terminated(s) && mark_count(s, func_marker()) == 0 && mark_count(s, endfunc_marker()) == 0
}

/// Identifier text as the tokenizer produces it never holds a newline.
pub open spec fn clean_token(tok: TokenV) -> bool {
    match tok {
        TokenV::Ident(s) => no_newline(s),
        _ => true,
    }
}

pub open spec fn clean_tokens(t: Seq<TokenV>) -> bool {
    forall|k: int| 0 <= k < t.len() ==> clean_token(#[trigger] t[k])
}

/// The loop context's end label never holds a newline.
pub open spec fn clean_ctx(c: CtxV) -> bool {
    no_newline(c.end_label)
}

/// All scopes below the innermost are untouched, and the stack height
/// is kept.
pub open spec fn outer_scopes_kept(c1: CtxV, c2: CtxV) -> bool {
    &&& c2.scopes.len() == c1.scopes.len()
    &&& forall|k: int| 0 <= k < c1.scopes.len() - 1 ==> c2.scopes[k] == c1.scopes[k]
}

// ---------------------------------------------------------------------
// Small facts about the markers and the emitted names
// ---------------------------------------------------------------------

proof fn lemma_markers_ok()
    ensures
        marker_ok(func_marker()),
        marker_ok(endfunc_marker()),
        func_marker().len() == 6,
        endfunc_marker().len() == 9,
        func_marker()[0] == '%',
        func_marker()[1] == 'f',
        endfunc_marker()[0] == '%',
        endfunc_marker()[1] == 'e',
        endfunc_marker()[2] == 'n',
{
    reveal_strlit("%func ");
    reveal_strlit("%endfunc\n");
}

proof fn lemma_dec_digits_no_newline(n: nat)
    ensures
        no_newline(dec_digits(n)),
    decreases n,
{
    if n >= 10 {
        lemma_dec_digits_no_newline(n / 10);
    }
}

proof fn lemma_int_digits_no_newline(v: int)
    ensures
        no_newline(int_digits(v)),
{
    if v < 0 {
        lemma_dec_digits_no_newline((-v) as nat);
    } else {
        lemma_dec_digits_no_newline(v as nat);
    }
}

proof fn lemma_temp_name_no_newline(n: nat)
    ensures
        no_newline(temp_name(n)),
{
    reveal_strlit("t");
    lemma_dec_digits_no_newline(n);
}

pub proof fn lemma_label_name_no_newline(n: nat)
    ensures
        no_newline(label_name(n)),
{
    reveal_strlit(":");
    lemma_dec_digits_no_newline(n);
}

/// A newline-free front glued onto a single line is a single line.
proof fn lemma_one_line_glue(a: Seq<char>, b: Seq<char>)
    requires
        no_newline(a),
        one_line(b),
    ensures
        one_line(a + b),
{
    assert((a + b).last() == b.last());
}

/// The empty text is tidy.
proof fn lemma_tidy_empty()
    ensures
        tidy_code(Seq::<char>::empty()),
{
    assert(mark_count(Seq::<char>::empty(), func_marker()) == 0);
    assert(mark_count(Seq::<char>::empty(), endfunc_marker()) == 0);
}

/// A line whose text differs from a marker at some position does not
/// open with that marker.
proof fn lemma_no_begin(line: Seq<char>, m: Seq<char>, j: int)
    requires
        0 <= j < m.len(),
        j < line.len(),
        line[j] != m[j],
    ensures
        !begins_with(line, 0, m),
{
    if begins_with(line, 0, m) {
        assert(line.subrange(0, m.len() as int)[j] == line[j]);
    }
}

/// A single line that opens with neither marker is tidy.
proof fn lemma_tidy_line(line: Seq<char>)
    requires
        one_line(line),
        !begins_with(line, 0, func_marker()),
        !begins_with(line, 0, endfunc_marker()),
    ensures
        tidy_code(line),
{
    lemma_markers_ok();
    lemma_count_one_line(line, func_marker());
    lemma_count_one_line(line, endfunc_marker());
}

/// Tidiness is closed under concatenation.
proof fn lemma_tidy_concat(a: Seq<char>, b: Seq<char>)
    requires
        tidy_code(a),
        tidy_code(b),
    ensures
        tidy_code(a + b),
{
    lemma_markers_ok();
    lemma_count_concat(a, b, func_marker());
    lemma_count_concat(a, b, endfunc_marker());
    if b.len() == 0 {
        assert(a + b =~= a);
    } else {
        assert((a + b).last() == b.last());
    }
}

/// An instruction line: a newline-free body whose second character
/// rules both markers out, closed with one newline. Covers every
/// mnemonic the parser emits except the boolean comparisons.
proof fn lemma_tidy_instruction(body: Seq<char>)
    requires
        no_newline(body),
        body.len() >= 2,
        body[1] != 'f',
        body[1] != 'e',
    ensures
        tidy_code(body + "\n"@),
{
    reveal_strlit("\n");
    let line = body + "\n"@;
    lemma_markers_ok();
    assert(one_line(line));
    assert(line[1] == body[1]);
    lemma_no_begin(line, func_marker(), 1);
    lemma_no_begin(line, endfunc_marker(), 1);
    lemma_tidy_line(line);
}

/// The `%branch_ifn` chunk emitted by `while` and `if` is one tidy line.
proof fn lemma_tidy_branch_chunk(name: Seq<char>, label: Seq<char>)
    requires
        no_newline(name),
        no_newline(label),
    ensures
        tidy_code("%branch_ifn "@ + name + ", "@ + label + "\n"@),
{
    reveal_strlit("%branch_ifn ");
    reveal_strlit(", ");
    reveal_strlit("\n");
    let body = "%branch_ifn "@ + name + ", "@ + label;
    assert("%branch_ifn "@ + name + ", "@ + label + "\n"@ =~= body + "\n"@);
    assert(body[1] == 'b');
    lemma_tidy_instruction(body);
}

/// A line that does not start with '%' at all is tidy; label lines and
/// the boolean comparison's operand line have this shape.
proof fn lemma_tidy_nonpercent_line(body: Seq<char>)
    requires
        no_newline(body),
        body.len() >= 1,
        body[0] != '%',
    ensures
        tidy_code(body + "\n"@),
{
    reveal_strlit("\n");
    let line = body + "\n"@;
    lemma_markers_ok();
    assert(one_line(line));
    assert(line[0] == body[0]);
    lemma_no_begin(line, func_marker(), 0);
    lemma_no_begin(line, endfunc_marker(), 0);
    lemma_tidy_line(line);
}

// ---------------------------------------------------------------------
// Expression lowering emits tidy code
// ---------------------------------------------------------------------

/// Conclusion of the expression-level lemmas: on success the parse
/// advanced but stayed short of the `End` sentinel, the emitted code is
/// tidy, the operand name holds no newline, and the loop context's end
/// label is untouched.
pub open spec fn shaped_expr(t: Seq<TokenV>, i: int, c: CtxV, r: Result<ExprOut, Seq<char>>) -> bool {
    r is Ok ==> {
        &&& i < r->Ok_0.i < t.len()
        &&& tidy_code(r->Ok_0.code)
        &&& no_newline(r->Ok_0.name)
        &&& r->Ok_0.c.end_label == c.end_label
        &&& r->Ok_0.c.scopes == c.scopes
    }
}

#[verifier::rlimit(100)]
#[verifier::spinoff_prover]
pub proof fn lemma_shape_term(t: Seq<TokenV>, i: int, c: CtxV)
    requires
        end_terminated(t),
        clean_tokens(t),
        0 <= i,
    ensures
        shaped_expr(t, i, c, sp_term(t, i, c)),
    decreases toks_rem(t, i), 0int,
{
    if 0 <= i < t.len() {
        match t[i] {
            TokenV::Ident(name) => {
                assert(clean_token(t[i]));
                lemma_not_end_bound(t, i);
                if !sp_find(c, name) {
                } else if t[i + 1] is LeftParen {
                    lemma_not_end_bound(t, i + 1);
                    let tname = temp_name(c.temps);
                    let c1 = CtxV { temps: c.temps + 1, ..c };
                    let call0 = "%call "@ + tname + ", "@ + name + "("@;
                    lemma_temp_name_no_newline(c.temps);
                    reveal_strlit("%call ");
                    reveal_strlit(", ");
                    reveal_strlit("(");
                    assert(no_newline(call0));
                    lemma_tidy_empty();
                    lemma_shape_call_args(t, i + 2, c1, Seq::empty(), call0);
                    match sp_call_args(t, i + 2, c1, Seq::empty(), call0) {
                        Err(m) => {},
                        Ok(o) => {
                            if t[o.i] is RightParen {
                                lemma_not_end_bound(t, o.i);
                                reveal_strlit("%int ");
                                reveal_strlit("\n");
                                reveal_strlit(")\n");
                                let bline = "%int "@ + tname + "\n"@;
                                let cline = o.name + ")\n"@;
                                let code = o.code + "%int "@ + tname + "\n"@ + (o.name + ")\n"@);
                                assert(code =~= o.code + (bline + cline));
                                lemma_tidy_instruction("%int "@ + tname);
                                assert(one_line(")\n"@));
                                lemma_one_line_glue(o.name, ")\n"@);
                                lemma_markers_ok();
                                assert(o.name[1] == o.name.subrange(0, call0.len() as int)[1]);
                                assert(cline[1] == 'c');
                                lemma_no_begin(cline, func_marker(), 1);
                                lemma_no_begin(cline, endfunc_marker(), 1);
                                lemma_tidy_line(cline);
                                lemma_tidy_concat(bline, cline);
                                lemma_tidy_concat(o.code, bline + cline);
                            }
                        },
                    }
                } else if t[i + 1] is LeftBracket {
                    lemma_not_end_bound(t, i + 1);
                    lemma_shape_expression(t, i + 2, c);
                    match sp_expression(t, i + 2, c) {
                        Err(m) => {},
                        Ok(o) => {
                            if t[o.i] is RightBracket {
                                lemma_not_end_bound(t, o.i);
                                reveal_strlit("[");
                                reveal_strlit(" + ");
                                reveal_strlit("]");
                                reveal_strlit("%int ");
                                reveal_strlit("%mov ");
                                reveal_strlit(", ");
                                reveal_strlit("\n");
                                let addr = "["@ + name + " + "@ + o.name + "]"@;
                                let tname = temp_name(o.c.temps);
                                lemma_temp_name_no_newline(o.c.temps);
                                assert(no_newline(addr));
                                let bline = "%int "@ + tname + "\n"@;
                                let cbody = "%mov "@ + tname + ", "@ + addr;
                                let cline = cbody + "\n"@;
                                let code = o.code + "%int "@ + tname + "\n"@ + "%mov "@ + tname
                                    + ", "@ + addr + "\n"@;
                                assert(code =~= o.code + (bline + cline));
                                lemma_tidy_instruction("%int "@ + tname);
                                lemma_tidy_instruction(cbody);
                                lemma_tidy_concat(bline, cline);
                                lemma_tidy_concat(o.code, bline + cline);
                            }
                        },
                    }
                } else {
                    lemma_tidy_empty();
                }
            },
            TokenV::Num(n) => {
                lemma_not_end_bound(t, i);
                lemma_tidy_empty();
                lemma_int_digits_no_newline(n);
            },
            TokenV::LeftParen => {
                lemma_not_end_bound(t, i);
                lemma_shape_expression(t, i + 1, c);
                match sp_expression(t, i + 1, c) {
                    Err(m) => {},
                    Ok(o) => {
                        if t[o.i] is RightParen {
                            lemma_not_end_bound(t, o.i);
                        }
                    },
                }
            },
            _ => {},
        }
    }
}

/// As `shaped_expr`, for the call-argument loop: the accumulated call
/// text keeps its prefix, and the loop may stop where it started.
pub open spec fn shaped_args(
    t: Seq<TokenV>,
    i: int,
    c: CtxV,
    call: Seq<char>,
    r: Result<ExprOut, Seq<char>>,
) -> bool {
    r is Ok ==> {
        &&& i <= r->Ok_0.i < t.len()
        &&& tidy_code(r->Ok_0.code)
        &&& no_newline(r->Ok_0.name)
        &&& r->Ok_0.name.len() >= call.len()
        &&& r->Ok_0.name.subrange(0, call.len() as int) == call
        &&& r->Ok_0.c.end_label == c.end_label
        &&& r->Ok_0.c.scopes == c.scopes
    }
}

#[verifier::rlimit(100)]
#[verifier::spinoff_prover]
pub proof fn lemma_shape_call_args(t: Seq<TokenV>, i: int, c: CtxV, ecode: Seq<char>, call: Seq<char>)
    requires
        end_terminated(t),
        clean_tokens(t),
        0 <= i < t.len(),
        tidy_code(ecode),
        no_newline(call),
    ensures
        shaped_args(t, i, c, call, sp_call_args(t, i, c, ecode, call)),
    decreases toks_rem(t, i), 6int,
{
    if t[i] is RightParen {
        assert(call.subrange(0, call.len() as int) =~= call);
    } else {
        lemma_shape_expression(t, i, c);
        match sp_expression(t, i, c) {
            Err(m) => {},
            Ok(o) => {
                let ecode2 = ecode + o.code;
                let call2 = call + o.name;
                lemma_tidy_concat(ecode, o.code);
                if t[o.i] is Comma {
                    lemma_not_end_bound(t, o.i);
                    reveal_strlit(",");
                    assert(no_newline(call2 + ","@));
                    lemma_shape_call_args(t, o.i + 1, o.c, ecode2, call2 + ","@);
                    match sp_call_args(t, o.i + 1, o.c, ecode2, call2 + ","@) {
                        Err(m) => {},
                        Ok(o2) => {
                            assert(o2.name.subrange(0, call.len() as int) =~= o2.name.subrange(
                                0,
                                (call2 + ","@).len() as int,
                            ).subrange(0, call.len() as int));
                            assert((call2 + ","@).subrange(0, call.len() as int) =~= call);
                        },
                    }
                } else {
                    assert(call2.subrange(0, call.len() as int) =~= call);
                }
            },
        }
    }
}

/// The `* / %` chain keeps the code tidy: each step appends the next
/// term's code and one fresh two-line instruction chunk.
#[verifier::rlimit(100)]
#[verifier::spinoff_prover]
pub proof fn lemma_shape_mult_chain(t: Seq<TokenV>, i: int, c: CtxV, code: Seq<char>, name: Seq<char>)
    requires
        end_terminated(t),
        clean_tokens(t),
        0 <= i < t.len(),
        tidy_code(code),
        no_newline(name),
    ensures
        ({
            let r = sp_mult_chain(t, i, c, code, name);
            r is Ok ==> i <= r->Ok_0.i < t.len() && tidy_code(r->Ok_0.code) && no_newline(
                r->Ok_0.name,
            ) && r->Ok_0.c.end_label == c.end_label && r->Ok_0.c.scopes == c.scopes
        }),
    decreases toks_rem(t, i), 2int,
{
    if t[i] is Multiply || t[i] is Divide || t[i] is Modulus {
        let op: Seq<char> = if t[i] is Multiply {
            "%mult"@
        } else if t[i] is Divide {
            "%div"@
        } else {
            "%mod"@
        };
        reveal_strlit("%mult");
        reveal_strlit("%div");
        reveal_strlit("%mod");
        reveal_strlit("%int ");
        reveal_strlit("\n");
        reveal_strlit(", ");
        reveal_strlit(" ");
        lemma_not_end_bound(t, i);
        lemma_shape_term(t, i + 1, c);
        match sp_term(t, i + 1, c) {
            Err(m) => {},
            Ok(o) => {
                let tname = temp_name(o.c.temps);
                let c2 = CtxV { temps: o.c.temps + 1, ..o.c };
                lemma_temp_name_no_newline(o.c.temps);
                let instr = "%int "@ + tname + "\n"@ + op + " "@ + tname + ", "@ + name + ", "@
                    + o.name + "\n"@;
                let bline = "%int "@ + tname + "\n"@;
                let cbody = op + " "@ + tname + ", "@ + name + ", "@ + o.name;
                assert(instr =~= bline + (cbody + "\n"@));
                lemma_tidy_instruction("%int "@ + tname);
                assert(cbody[1] == op[1]);
                lemma_tidy_instruction(cbody);
                lemma_tidy_concat(bline, cbody + "\n"@);
                lemma_tidy_concat(code, o.code);
                lemma_tidy_concat(code + o.code, instr);
                lemma_shape_mult_chain(t, o.i, c2, code + o.code + instr, tname);
            },
        }
    }
}

pub proof fn lemma_shape_mult(t: Seq<TokenV>, i: int, c: CtxV)
    requires
        end_terminated(t),
        clean_tokens(t),
        0 <= i,
    ensures
        shaped_expr(t, i, c, sp_mult(t, i, c)),
    decreases toks_rem(t, i), 3int,
{
    lemma_shape_term(t, i, c);
    match sp_term(t, i, c) {
        Err(m) => {},
        Ok(o) => {
            lemma_shape_mult_chain(t, o.i, o.c, o.code, o.name);
        },
    }
}

/// The `+ -` chain, with the same shape as the multiplicative one.
#[verifier::rlimit(100)]
#[verifier::spinoff_prover]
pub proof fn lemma_shape_expr_chain(t: Seq<TokenV>, i: int, c: CtxV, code: Seq<char>, name: Seq<char>)
    requires
        end_terminated(t),
        clean_tokens(t),
        0 <= i < t.len(),
        tidy_code(code),
        no_newline(name),
    ensures
        ({
            let r = sp_expr_chain(t, i, c, code, name);
            r is Ok ==> i <= r->Ok_0.i < t.len() && tidy_code(r->Ok_0.code) && no_newline(
                r->Ok_0.name,
            ) && r->Ok_0.c.end_label == c.end_label && r->Ok_0.c.scopes == c.scopes
        }),
    decreases toks_rem(t, i), 4int,
{
    if t[i] is Plus || t[i] is Subtract {
        let op: Seq<char> = if t[i] is Plus {
            "%add"@
        } else {
            "%sub"@
        };
        reveal_strlit("%add");
        reveal_strlit("%sub");
        reveal_strlit("%int ");
        reveal_strlit("\n");
        reveal_strlit(", ");
        reveal_strlit(" ");
        lemma_not_end_bound(t, i);
        lemma_shape_mult(t, i + 1, c);
        match sp_mult(t, i + 1, c) {
            Err(m) => {},
            Ok(o) => {
                let tname = temp_name(o.c.temps);
                let c2 = CtxV { temps: o.c.temps + 1, ..o.c };
                lemma_temp_name_no_newline(o.c.temps);
                let instr = "%int "@ + tname + "\n"@ + op + " "@ + tname + ", "@ + name + ", "@
                    + o.name + "\n"@;
                let bline = "%int "@ + tname + "\n"@;
                let cbody = op + " "@ + tname + ", "@ + name + ", "@ + o.name;
                assert(instr =~= bline + (cbody + "\n"@));
                lemma_tidy_instruction("%int "@ + tname);
                assert(cbody[1] == op[1]);
                lemma_tidy_instruction(cbody);
                lemma_tidy_concat(bline, cbody + "\n"@);
                lemma_tidy_concat(code, o.code);
                lemma_tidy_concat(code + o.code, instr);
                lemma_shape_expr_chain(t, o.i, c2, code + o.code + instr, tname);
            },
        }
    }
}

pub proof fn lemma_shape_expression(t: Seq<TokenV>, i: int, c: CtxV)
    requires
        end_terminated(t),
        clean_tokens(t),
        0 <= i,
    ensures
        shaped_expr(t, i, c, sp_expression(t, i, c)),
    decreases toks_rem(t, i), 5int,
{
    lemma_shape_mult(t, i, c);
    match sp_mult(t, i, c) {
        Err(m) => {},
        Ok(o) => {
            lemma_shape_expr_chain(t, o.i, o.c, o.code, o.name);
        },
    }
}

/// Boolean lowering: both operands' code, then the temporary's
/// declaration line and the comparison line.
#[verifier::rlimit(100)]
#[verifier::spinoff_prover]
pub proof fn lemma_shape_bool(t: Seq<TokenV>, i: int, c: CtxV)
    requires
        end_terminated(t),
        clean_tokens(t),
        0 <= i,
    ensures
        shaped_expr(t, i, c, sp_bool(t, i, c)),
    decreases toks_rem(t, i), 6int,
{
    if i < t.len() {
        lemma_shape_expression(t, i, c);
        match sp_expression(t, i, c) {
            Err(m) => {},
            Ok(o) => {
                let tname = temp_name(o.c.temps);
                let c2 = CtxV { temps: o.c.temps + 1, ..o.c };
                lemma_temp_name_no_newline(o.c.temps);
                reveal_strlit("%int ");
                reveal_strlit("\n");
                reveal_strlit(", ");
                if o.i < t.len() && (t[o.i] is Less || t[o.i] is LessEqual || t[o.i] is Greater
                    || t[o.i] is GreaterEqual || t[o.i] is Equality || t[o.i] is NotEqual) {
                    let op: Seq<char> = if t[o.i] is Less {
                        "%lt "@
                    } else if t[o.i] is LessEqual {
                        "%le "@
                    } else if t[o.i] is Greater {
                        "%gt "@
                    } else if t[o.i] is GreaterEqual {
                        "%ge "@
                    } else if t[o.i] is Equality {
                        "%eq "@
                    } else {
                        "%neq "@
                    };
                    reveal_strlit("%lt ");
                    reveal_strlit("%le ");
                    reveal_strlit("%gt ");
                    reveal_strlit("%ge ");
                    reveal_strlit("%eq ");
                    reveal_strlit("%neq ");
                    lemma_not_end_bound(t, o.i);
                    lemma_shape_expression(t, o.i + 1, c2);
                    match sp_expression(t, o.i + 1, c2) {
                        Err(m) => {},
                        Ok(o2) => {
                            lemma_markers_ok();
                            let code = o.code + o2.code + "%int "@ + tname + "\n"@ + op + tname
                                + ", "@ + o.name + ", "@ + o2.name + "\n"@;
                            let bline = "%int "@ + tname + "\n"@;
                            let ibody = op + tname + ", "@ + o.name + ", "@ + o2.name;
                            let iline = ibody + "\n"@;
                            assert(code =~= o.code + (o2.code + (bline + iline)));
                            lemma_tidy_instruction("%int "@ + tname);
                            assert(no_newline(ibody));
                            assert(one_line(iline));
                            assert(iline[1] == op[1]);
                            lemma_no_begin(iline, func_marker(), 1);
                            if t[o.i] is Equality {
                                assert(iline[2] == op[2]);
                                lemma_no_begin(iline, endfunc_marker(), 2);
                            } else {
                                lemma_no_begin(iline, endfunc_marker(), 1);
                            }
                            lemma_tidy_line(iline);
                            lemma_tidy_concat(bline, iline);
                            lemma_tidy_concat(o2.code, bline + iline);
                            lemma_tidy_concat(o.code, o2.code + (bline + iline));
                        },
                    }
                }
            },
        }
    }
}


// ---------------------------------------------------------------------
// Statement lowering emits tidy code
// ---------------------------------------------------------------------

/// Conclusion of the statement-level lemmas: on success the parse
/// advanced but stayed short of the `End` sentinel, the emitted code is
/// tidy, and the loop context's end label stays newline-free.
pub open spec fn shaped_stmt(t: Seq<TokenV>, i: int, c: CtxV, r: Result<StmtOut, Seq<char>>) -> bool {
    r is Ok ==> {
        &&& i < r->Ok_0.i < t.len()
        &&& tidy_code(r->Ok_0.code)
        &&& clean_ctx(r->Ok_0.c)
        &&& outer_scopes_kept(c, r->Ok_0.c)
    }
}

#[verifier::rlimit(100)]
#[verifier::spinoff_prover]
pub proof fn lemma_shape_declaration_statement(t: Seq<TokenV>, i: int, c: CtxV)
    requires
        end_terminated(t),
        clean_tokens(t),
        0 <= i,
        clean_ctx(c),
    ensures
        shaped_stmt(t, i, c, sp_declaration_statement(t, i, c)),
    decreases toks_rem(t, i), 8int,
{
    if 0 <= i < t.len() && t[i] is Int {
        lemma_not_end_bound(t, i);
        reveal_strlit("%int");
        reveal_strlit("[]");
        reveal_strlit(", ");
        reveal_strlit(" ");
        reveal_strlit("\n");
        let arr = t[i + 1] is LeftBracket;
        if arr {
            lemma_not_end_bound(t, i + 1);
            if t[i + 2] is Num && t[i + 2]->Num_0 != 0 {
                lemma_not_end_bound(t, i + 2);
                if t[i + 3] is RightBracket {
                    lemma_not_end_bound(t, i + 3);
                }
            }
        }
        let j = if arr { i + 4 } else { i + 1 };
        let head: Seq<char> = if arr { "%int"@ + "[]"@ } else { "%int"@ };
        if 0 <= j < t.len() {
            match t[j] {
                TokenV::Ident(name) => {
                    assert(clean_token(t[j]));
                    lemma_not_end_bound(t, j);
                    if t[j + 1] is Semicolon {
                        lemma_not_end_bound(t, j + 1);
                        let num: Seq<char> = if arr {
                            ", "@ + int_digits(t[i + 2]->Num_0)
                        } else {
                            Seq::<char>::empty()
                        };
                        lemma_int_digits_no_newline(t[i + 2]->Num_0);
                        let body = head + " "@ + name + num;
                        assert(body[1] == head[1]);
                        lemma_tidy_instruction(body);
                    }
                },
                _ => {},
            }
        }
    }
}

#[verifier::rlimit(100)]
#[verifier::spinoff_prover]
pub proof fn lemma_shape_assignment_tail(
    t: Seq<TokenV>,
    i: int,
    c: CtxV,
    code: Seq<char>,
    dest: Seq<char>,
)
    requires
        end_terminated(t),
        clean_tokens(t),
        0 <= i,
        clean_ctx(c),
        tidy_code(code),
        no_newline(dest),
    ensures
        shaped_stmt(t, i, c, sp_assignment_tail(t, i, c, code, dest)),
    decreases toks_rem(t, i), 6int,
{
    if 0 <= i < t.len() && t[i] is Assign {
        lemma_not_end_bound(t, i);
        lemma_shape_expression(t, i + 1, c);
        match sp_expression(t, i + 1, c) {
            Err(m) => {},
            Ok(o) => {
                if t[o.i] is Semicolon {
                    lemma_not_end_bound(t, o.i);
                    reveal_strlit("%mov ");
                    reveal_strlit(", ");
                    reveal_strlit("\n");
                    let mbody = "%mov "@ + dest + ", "@ + o.name;
                    let chunk = mbody + "\n"@;
                    let out = code + o.code + ("%mov "@ + dest + ", "@ + o.name + "\n"@);
                    assert(out =~= (code + o.code) + chunk);
                    assert(mbody[1] == 'm');
                    lemma_tidy_instruction(mbody);
                    lemma_tidy_concat(code, o.code);
                    lemma_tidy_concat(code + o.code, chunk);
                }
            },
        }
    }
}

#[verifier::rlimit(100)]
#[verifier::spinoff_prover]
pub proof fn lemma_shape_assignment_statement(t: Seq<TokenV>, i: int, c: CtxV)
    requires
        end_terminated(t),
        clean_tokens(t),
        0 <= i,
        clean_ctx(c),
    ensures
        shaped_stmt(t, i, c, sp_assignment_statement(t, i, c)),
    decreases toks_rem(t, i), 8int,
{
    if 0 <= i < t.len() {
        match t[i] {
            TokenV::Ident(name) => {
                assert(clean_token(t[i]));
                lemma_not_end_bound(t, i);
                if sp_find(c, name) {
                    if t[i + 1] is LeftBracket {
                        lemma_not_end_bound(t, i + 1);
                        lemma_shape_expression(t, i + 2, c);
                        match sp_expression(t, i + 2, c) {
                            Err(m) => {},
                            Ok(o) => {
                                if t[o.i] is RightBracket {
                                    lemma_not_end_bound(t, o.i);
                                    reveal_strlit("[");
                                    reveal_strlit(" + ");
                                    reveal_strlit("]");
                                    let dest = "["@ + name + " + "@ + o.name + "]"@;
                                    assert(no_newline(dest));
                                    lemma_shape_assignment_tail(t, o.i + 1, o.c, o.code, dest);
                                }
                            },
                        }
                    } else {
                        lemma_tidy_empty();
                        lemma_shape_assignment_tail(t, i + 1, c, Seq::empty(), name);
                    }
                }
            },
            _ => {},
        }
    }
}

pub proof fn lemma_shape_return_statement(t: Seq<TokenV>, i: int, c: CtxV)
    requires
        end_terminated(t),
        clean_tokens(t),
        0 <= i,
        clean_ctx(c),
    ensures
        shaped_stmt(t, i, c, sp_return_statement(t, i, c)),
    decreases toks_rem(t, i), 8int,
{
    if 0 <= i < t.len() && t[i] is Return {
        lemma_not_end_bound(t, i);
        lemma_shape_expression(t, i + 1, c);
        match sp_expression(t, i + 1, c) {
            Err(m) => {},
            Ok(o) => {
                if t[o.i] is Semicolon {
                    lemma_not_end_bound(t, o.i);
                    reveal_strlit("%ret ");
                    reveal_strlit("\n");
                    let body = "%ret "@ + o.name;
                    assert(body[1] == 'r');
                    lemma_tidy_instruction(body);
                    lemma_tidy_concat(o.code, body + "\n"@);
                }
            },
        }
    }
}

pub proof fn lemma_shape_print_statement(t: Seq<TokenV>, i: int, c: CtxV)
    requires
        end_terminated(t),
        clean_tokens(t),
        0 <= i,
        clean_ctx(c),
    ensures
        shaped_stmt(t, i, c, sp_print_statement(t, i, c)),
    decreases toks_rem(t, i), 8int,
{
    if 0 <= i < t.len() && t[i] is Print {
        lemma_not_end_bound(t, i);
        lemma_shape_expression(t, i + 1, c);
        match sp_expression(t, i + 1, c) {
            Err(m) => {},
            Ok(o) => {
                if t[o.i] is Semicolon {
                    lemma_not_end_bound(t, o.i);
                    reveal_strlit("%out ");
                    reveal_strlit("\n");
                    let body = "%out "@ + o.name;
                    assert(body[1] == 'o');
                    lemma_tidy_instruction(body);
                    lemma_tidy_concat(o.code, body + "\n"@);
                }
            },
        }
    }
}

pub proof fn lemma_shape_read_statement(t: Seq<TokenV>, i: int, c: CtxV)
    requires
        end_terminated(t),
        clean_tokens(t),
        0 <= i,
        clean_ctx(c),
    ensures
        shaped_stmt(t, i, c, sp_read_statement(t, i, c)),
    decreases toks_rem(t, i), 8int,
{
    if 0 <= i < t.len() && t[i] is Read {
        lemma_not_end_bound(t, i);
        lemma_shape_expression(t, i + 1, c);
        match sp_expression(t, i + 1, c) {
            Err(m) => {},
            Ok(o) => {
                if t[o.i] is Semicolon {
                    lemma_not_end_bound(t, o.i);
                    reveal_strlit("%input ");
                    reveal_strlit("\n");
                    let body = "%input "@ + o.name;
                    assert(body[1] == 'i');
                    lemma_tidy_instruction(body);
                    lemma_tidy_concat(o.code, body + "\n"@);
                }
            },
        }
    }
}

pub proof fn lemma_shape_break_statement(t: Seq<TokenV>, i: int, c: CtxV)
    requires
        end_terminated(t),
        clean_tokens(t),
        0 <= i,
        clean_ctx(c),
    ensures
        shaped_stmt(t, i, c, sp_break_statement(t, i, c)),
    decreases toks_rem(t, i), 8int,
{
    if c.in_loop && 0 <= i < t.len() && t[i] is Break {
        lemma_not_end_bound(t, i);
        if t[i + 1] is Semicolon {
            lemma_not_end_bound(t, i + 1);
            if c.end_label.len() > 0 {
                reveal_strlit("%jmp ");
                reveal_strlit("\n");
                let body = "%jmp "@ + c.end_label;
                assert(body[1] == 'j');
                lemma_tidy_instruction(body);
            }
        }
    }
}

pub proof fn lemma_shape_continue_statement(t: Seq<TokenV>, i: int, c: CtxV)
    requires
        end_terminated(t),
        clean_tokens(t),
        0 <= i,
        clean_ctx(c),
    ensures
        shaped_stmt(t, i, c, sp_continue_statement(t, i, c)),
    decreases toks_rem(t, i), 8int,
{
    if c.in_loop && 0 <= i < t.len() && t[i] is Continue {
        lemma_not_end_bound(t, i);
        if t[i + 1] is Semicolon {
            lemma_not_end_bound(t, i + 1);
            if c.end_label.len() > 0 {
                reveal_strlit("%jmp ");
                reveal_strlit("\n");
                let body = "%jmp "@ + c.end_label;
                assert(body[1] == 'j');
                lemma_tidy_instruction(body);
            }
        }
    }
}

/// The statement loop preserves the marker counts of its accumulator:
/// the statements it appends are all tidy.
#[verifier::rlimit(100)]
#[verifier::spinoff_prover]
pub proof fn lemma_shape_stmt_seq(t: Seq<TokenV>, i: int, c: CtxV, acc: Seq<char>)
    requires
        end_terminated(t),
        clean_tokens(t),
        0 <= i < t.len(),
        clean_ctx(c),
        nl_terminated(acc),
    ensures
        ({
            let r = sp_stmt_seq(t, i, c, acc);
            r is Ok ==> {
                &&& i <= r->Ok_0.i < t.len()
                &&& t[r->Ok_0.i] is RightCurly
                &&& nl_terminated(r->Ok_0.code)
                &&& mark_count(r->Ok_0.code, func_marker()) == mark_count(acc, func_marker())
                &&& mark_count(r->Ok_0.code, endfunc_marker()) == mark_count(acc, endfunc_marker())
                &&& clean_ctx(r->Ok_0.c)
                &&& outer_scopes_kept(c, r->Ok_0.c)
            }
        }),
    decreases toks_rem(t, i), 10int,
{
    lemma_markers_ok();
    if t[i] is RightCurly {
    } else {
        lemma_shape_statement(t, i, c);
        match sp_statement(t, i, c) {
            Err(m) => {
                assert(sp_stmt_seq(t, i, c, acc) == Err::<StmtOut, Seq<char>>(m));
            },
            Ok(o) => {
                assert(sp_stmt_seq(t, i, c, acc) == sp_stmt_seq(t, o.i, o.c, acc + o.code));
                lemma_count_concat(acc, o.code, func_marker());
                lemma_count_concat(acc, o.code, endfunc_marker());
                if o.code.len() == 0 {
                    assert(acc + o.code =~= acc);
                } else {
                    assert((acc + o.code).last() == o.code.last());
                }
                lemma_shape_stmt_seq(t, o.i, o.c, acc + o.code);
            },
        }
    }
}

#[verifier::rlimit(100)]
#[verifier::spinoff_prover]
pub proof fn lemma_shape_while_statement(t: Seq<TokenV>, i: int, c: CtxV)
    requires
        end_terminated(t),
        clean_tokens(t),
        0 <= i,
        clean_ctx(c),
    ensures
        shaped_stmt(t, i, c, sp_while_statement(t, i, c)),
    decreases toks_rem(t, i), 8int,
{
    if 0 <= i < t.len() && t[i] is While {
        lemma_not_end_bound(t, i);
        let end_label = label_name(c.labels);
        let start_label = label_name(c.labels + 1);
        lemma_label_name_no_newline(c.labels);
        lemma_label_name_no_newline(c.labels + 1);
        let c1 = CtxV { labels: c.labels + 2, in_loop: true, end_label: end_label, ..c };
        lemma_shape_bool(t, i + 1, c1);
        match sp_bool(t, i + 1, c1) {
            Err(m) => {},
            Ok(o) => {
                reveal_strlit("\n");
                reveal_strlit(":");
                let bchunk = "%branch_ifn "@ + o.name + ", "@ + end_label + "\n"@;
                lemma_tidy_branch_chunk(o.name, end_label);
                assert(start_label[0] == ':');
                lemma_tidy_nonpercent_line(start_label);
                let code1 = start_label + "\n"@ + o.code + bchunk;
                assert(code1 =~= ((start_label + "\n"@) + o.code) + bchunk);
                lemma_tidy_concat(start_label + "\n"@, o.code);
                lemma_tidy_concat((start_label + "\n"@) + o.code, bchunk);
                if t[o.i] is LeftCurly {
                    lemma_not_end_bound(t, o.i);
                    lemma_shape_stmt_seq(t, o.i + 1, o.c, code1);
                    match sp_stmt_seq(t, o.i + 1, o.c, code1) {
                        Err(m) => {},
                        Ok(o2) => {
                            lemma_not_end_bound(t, o2.i);
                            assert(end_label[0] == ':');
                            lemma_tidy_nonpercent_line(end_label);
                            assert(tidy_code(o2.code));
                            let out = o2.code + end_label + "\n"@;
                            assert(out =~= o2.code + (end_label + "\n"@));
                            lemma_tidy_concat(o2.code, end_label + "\n"@);
                        },
                    }
                }
            },
        }
    }
}

#[verifier::rlimit(100)]
#[verifier::spinoff_prover]
pub proof fn lemma_shape_if_else(
    t: Seq<TokenV>,
    j: int,
    c: CtxV,
    code2: Seq<char>,
    end_label: Seq<char>,
)
    requires
        end_terminated(t),
        clean_tokens(t),
        0 <= j < t.len(),
        clean_ctx(c),
        tidy_code(code2),
        no_newline(end_label),
        end_label.len() > 0,
        end_label[0] == ':',
    ensures
        ({
            let r = sp_if_else(t, j, c, code2, end_label);
            r is Ok ==> j <= r->Ok_0.i < t.len() && tidy_code(r->Ok_0.code) && clean_ctx(
                r->Ok_0.c,
            ) && outer_scopes_kept(c, r->Ok_0.c)
        }),
    decreases toks_rem(t, j), 7int,
{
    reveal_strlit("\n");
    lemma_tidy_nonpercent_line(end_label);
    if t[j] is Else {
        lemma_not_end_bound(t, j);
        if t[j + 1] is LeftCurly {
            lemma_not_end_bound(t, j + 1);
            lemma_shape_stmt_seq(t, j + 2, c, code2);
            match sp_stmt_seq(t, j + 2, c, code2) {
                Err(m) => {},
                Ok(o3) => {
                    lemma_not_end_bound(t, o3.i);
                    assert(tidy_code(o3.code));
                    let out = o3.code + end_label + "\n"@;
                    assert(out =~= o3.code + (end_label + "\n"@));
                    lemma_tidy_concat(o3.code, end_label + "\n"@);
                },
            }
        }
    } else {
        let out = code2 + end_label + "\n"@;
        assert(out =~= code2 + (end_label + "\n"@));
        lemma_tidy_concat(code2, end_label + "\n"@);
    }
}

#[verifier::rlimit(100)]
#[verifier::spinoff_prover]
pub proof fn lemma_shape_if_statement(t: Seq<TokenV>, i: int, c: CtxV)
    requires
        end_terminated(t),
        clean_tokens(t),
        0 <= i,
        clean_ctx(c),
    ensures
        shaped_stmt(t, i, c, sp_if_statement(t, i, c)),
    decreases toks_rem(t, i), 8int,
{
    if 0 <= i < t.len() && t[i] is If {
        lemma_not_end_bound(t, i);
        let end_label = label_name(c.labels);
        let false_label = label_name(c.labels + 1);
        lemma_label_name_no_newline(c.labels);
        lemma_label_name_no_newline(c.labels + 1);
        let c1 = CtxV { labels: c.labels + 2, ..c };
        lemma_shape_bool(t, i + 1, c1);
        match sp_bool(t, i + 1, c1) {
            Err(m) => {},
            Ok(o) => {
                reveal_strlit("\n");
                reveal_strlit(":");
                let bchunk = "%branch_ifn "@ + o.name + ", "@ + false_label + "\n"@;
                lemma_tidy_branch_chunk(o.name, false_label);
                let code1 = o.code + bchunk;
                lemma_tidy_concat(o.code, bchunk);
                if t[o.i] is LeftCurly {
                    lemma_not_end_bound(t, o.i);
                    lemma_shape_stmt_seq(t, o.i + 1, o.c, code1);
                    match sp_stmt_seq(t, o.i + 1, o.c, code1) {
                        Err(m) => {
                            assert(sp_if_statement(t, i, c) == Err::<StmtOut, Seq<char>>(m));
                        },
                        Ok(o2) => {
                            lemma_not_end_bound(t, o2.i);
                            assert(sp_if_statement(t, i, c) == sp_if_else(
                                t,
                                o2.i + 1,
                                o2.c,
                                o2.code + false_label + "\n"@,
                                end_label,
                            ));
                            lemma_shape_if_finish(
                                t,
                                i,
                                c,
                                o2.i,
                                o2.c,
                                o2.code,
                                false_label,
                                end_label,
                            );
                        },
                    }
                }
            },
        }
    }
}

/// Closes the if-statement shape proof once the true branch is parsed:
/// the false label line, the optional else block, and the end label
/// line are all tidy, and the outer scopes stay kept.
#[verifier::rlimit(100)]
#[verifier::spinoff_prover]
proof fn lemma_shape_if_finish(
    t: Seq<TokenV>,
    i: int,
    c: CtxV,
    o2i: int,
    o2c: CtxV,
    o2code: Seq<char>,
    false_label: Seq<char>,
    end_label: Seq<char>,
)
    requires
        end_terminated(t),
        clean_tokens(t),
        0 <= i <= o2i,
        o2i + 1 < t.len(),
        clean_ctx(o2c),
        outer_scopes_kept(c, o2c),
        tidy_code(o2code),
        no_newline(false_label),
        false_label.len() > 0,
        false_label[0] == ':',
        no_newline(end_label),
        end_label.len() > 0,
        end_label[0] == ':',
        sp_if_statement(t, i, c) == sp_if_else(
            t,
            o2i + 1,
            o2c,
            o2code + false_label + "\n"@,
            end_label,
        ),
    ensures
        shaped_stmt(t, i, c, sp_if_statement(t, i, c)),
    decreases toks_rem(t, i), 7int,
{
    reveal_strlit("\n");
    lemma_tidy_nonpercent_line(false_label);
    let code2 = o2code + false_label + "\n"@;
    assert(code2 =~= o2code + (false_label + "\n"@));
    lemma_tidy_concat(o2code, false_label + "\n"@);
    lemma_shape_if_else(t, o2i + 1, o2c, code2, end_label);
}

pub proof fn lemma_shape_statement(t: Seq<TokenV>, i: int, c: CtxV)
    requires
        end_terminated(t),
        clean_tokens(t),
        0 <= i < t.len(),
        clean_ctx(c),
    ensures
        shaped_stmt(t, i, c, sp_statement(t, i, c)),
    decreases toks_rem(t, i), 9int,
{
    match t[i] {
        TokenV::Int => lemma_shape_declaration_statement(t, i, c),
        TokenV::Ident(name) => lemma_shape_assignment_statement(t, i, c),
        TokenV::Return => lemma_shape_return_statement(t, i, c),
        TokenV::Print => lemma_shape_print_statement(t, i, c),
        TokenV::Read => lemma_shape_read_statement(t, i, c),
        TokenV::If => lemma_shape_if_statement(t, i, c),
        TokenV::While => lemma_shape_while_statement(t, i, c),
        TokenV::Break => lemma_shape_break_statement(t, i, c),
        TokenV::Continue => lemma_shape_continue_statement(t, i, c),
        _ => {},
    }
}

// ---------------------------------------------------------------------
// Functions open with one header and close with one %endfunc
// ---------------------------------------------------------------------

pub proof fn lemma_shape_param_decl(t: Seq<TokenV>, i: int, c: CtxV)
    requires
        end_terminated(t),
        clean_tokens(t),
        0 <= i,
    ensures
        ({
            let r = sp_param_decl(t, i, c);
            r is Ok ==> i < r->Ok_0.i < t.len() && no_newline(r->Ok_0.code)
                && r->Ok_0.c.end_label == c.end_label && outer_scopes_kept(c, r->Ok_0.c)
        }),
    decreases toks_rem(t, i), 8int,
{
    if 0 <= i < t.len() && t[i] is Int {
        lemma_not_end_bound(t, i);
        if t[i + 1] is LeftBracket {
            lemma_not_end_bound(t, i + 1);
            if t[i + 2] is Num && t[i + 2]->Num_0 != 0 {
                lemma_not_end_bound(t, i + 2);
                if t[i + 3] is RightBracket {
                    lemma_not_end_bound(t, i + 3);
                }
            }
        }
        let j = if t[i + 1] is LeftBracket { i + 4 } else { i + 1 };
        if 0 <= j < t.len() {
            match t[j] {
                TokenV::Ident(name) => {
                    assert(clean_token(t[j]));
                    lemma_not_end_bound(t, j);
                    reveal_strlit("%int ");
                },
                _ => {},
            }
        }
    }
}

/// The parameter loop only extends the header text, newline-free, and
/// keeps the accumulated prefix.
#[verifier::rlimit(100)]
#[verifier::spinoff_prover]
pub proof fn lemma_shape_params(t: Seq<TokenV>, i: int, c: CtxV, acc: Seq<char>)
    requires
        end_terminated(t),
        clean_tokens(t),
        0 <= i < t.len(),
        no_newline(acc),
    ensures
        ({
            let r = sp_params(t, i, c, acc);
            r is Ok ==> {
                &&& i <= r->Ok_0.i < t.len()
                &&& no_newline(r->Ok_0.code)
                &&& r->Ok_0.code.len() >= acc.len()
                &&& r->Ok_0.code.subrange(0, acc.len() as int) == acc
                &&& r->Ok_0.c.end_label == c.end_label
                &&& outer_scopes_kept(c, r->Ok_0.c)
            }
        }),
    decreases toks_rem(t, i), 9int,
{
    if t[i] is RightParen {
        assert(acc.subrange(0, acc.len() as int) =~= acc);
    } else {
        lemma_shape_param_decl(t, i, c);
        match sp_param_decl(t, i, c) {
            Err(m) => {},
            Ok(o) => {
                reveal_strlit(", ");
                if t[o.i] is Comma {
                    lemma_not_end_bound(t, o.i);
                    let acc2 = acc + o.code + ", "@;
                    lemma_shape_params(t, o.i + 1, o.c, acc2);
                    match sp_params(t, o.i + 1, o.c, acc2) {
                        Err(m) => {},
                        Ok(o2) => {
                            assert(o2.code.subrange(0, acc.len() as int) =~= o2.code.subrange(
                                0,
                                acc2.len() as int,
                            ).subrange(0, acc.len() as int));
                            assert(acc2.subrange(0, acc.len() as int) =~= acc);
                        },
                    }
                } else {
                    assert((acc + o.code).subrange(0, acc.len() as int) =~= acc);
                }
            },
        }
    }
}

/// A parsed function's code holds exactly one `%func` header line and
/// exactly one `%endfunc` line.
#[verifier::rlimit(100)]
#[verifier::spinoff_prover]
pub proof fn lemma_shape_function(t: Seq<TokenV>, i: int, c: CtxV)
    requires
        end_terminated(t),
        clean_tokens(t),
        0 <= i,
        clean_ctx(c),
    ensures
        ({
            let r = sp_function(t, i, c);
            r is Ok ==> {
                &&& i < r->Ok_0.i < t.len()
                &&& nl_terminated(r->Ok_0.code)
                &&& mark_count(r->Ok_0.code, func_marker()) == 1
                &&& mark_count(r->Ok_0.code, endfunc_marker()) == 1
                &&& clean_ctx(r->Ok_0.c)
                &&& t[i] is Func
                &&& t[i + 1] is Ident
                &&& r->Ok_0.c.scopes == sp_declare(c, t[i + 1]->Ident_0, SymbolType::Function).scopes
            }
        }),
    decreases toks_rem(t, i), 11int,
{
    lemma_markers_ok();
    if 0 <= i < t.len() && t[i] is Func {
        lemma_not_end_bound(t, i);
        match t[i + 1] {
            TokenV::Ident(name) => {
                assert(clean_token(t[i + 1]));
                lemma_not_end_bound(t, i + 1);
                if !sp_find(c, name) && t[i + 2] is LeftParen {
                    lemma_not_end_bound(t, i + 2);
                    reveal_strlit("%func ");
                    reveal_strlit("(");
                    reveal_strlit(")\n");
                    reveal_strlit("%endfunc\n");
                    let code0 = "%func "@ + name + "("@;
                    assert(no_newline(code0));
                    let c1 = sp_declare(c, name, SymbolType::Function);
                    let c2 = CtxV { scopes: c1.scopes.push(Seq::empty()), ..c1 };
                    lemma_shape_params(t, i + 3, c2, code0);
                    match sp_params(t, i + 3, c2, code0) {
                        Err(m) => {},
                        Ok(o) => {
                            if t[o.i] is RightParen && t[o.i + 1] is LeftCurly {
                                lemma_not_end_bound(t, o.i);
                                lemma_not_end_bound(t, o.i + 1);
                                let header = o.code + ")\n"@;
                                assert(one_line(")\n"@));
                                lemma_one_line_glue(o.code, ")\n"@);
                                // the header opens with the %func marker
                                assert(header.subrange(0, 6) =~= o.code.subrange(0, 6));
                                assert(o.code.subrange(0, 6) =~= o.code.subrange(
                                    0,
                                    code0.len() as int,
                                ).subrange(0, 6));
                                assert(code0.subrange(0, 6) =~= func_marker());
                                assert(begins_with(header, 0, func_marker()));
                                lemma_count_one_line(header, func_marker());
                                assert(header[1] == 'f');
                                lemma_no_begin(header, endfunc_marker(), 1);
                                lemma_count_one_line(header, endfunc_marker());
                                assert(mark_count(header, func_marker()) == 1);
                                assert(mark_count(header, endfunc_marker()) == 0);
                                lemma_shape_stmt_seq(t, o.i + 2, o.c, header);
                                match sp_stmt_seq(t, o.i + 2, o.c, header) {
                                    Err(m) => {},
                                    Ok(o2) => {
                                        lemma_not_end_bound(t, o2.i);
                                        let footer = "%endfunc\n"@;
                                        assert(one_line(footer));
                                        assert(begins_with(footer, 0, endfunc_marker())) by {
                                            assert(footer.subrange(0, 9) =~= endfunc_marker());
                                        }
                                        assert(footer[1] == 'e');
                                        lemma_no_begin(footer, func_marker(), 1);
                                        lemma_count_one_line(footer, func_marker());
                                        lemma_count_one_line(footer, endfunc_marker());
                                        lemma_count_concat(o2.code, footer, func_marker());
                                        lemma_count_concat(o2.code, footer, endfunc_marker());
                                        assert((o2.code + footer).last() == footer.last());
                                        assert(o2.c.scopes.drop_last() =~= c1.scopes);
                                    },
                                }
                            }
                        },
                    }
                }
            },
            _ => {},
        }
    }
}

/// Across the function loop, the header count and the `%endfunc` count
/// rise in lockstep.
pub proof fn lemma_shape_functions(t: Seq<TokenV>, i: int, c: CtxV, acc: Seq<char>)
    requires
        end_terminated(t),
        clean_tokens(t),
        0 <= i < t.len(),
        clean_ctx(c),
        nl_terminated(acc),
    ensures
        ({
            let r = sp_functions(t, i, c, acc);
            r is Ok ==> mark_count(r->Ok_0.code, func_marker()) + mark_count(
                acc,
                endfunc_marker(),
            ) == mark_count(r->Ok_0.code, endfunc_marker()) + mark_count(acc, func_marker())
        }),
    decreases toks_rem(t, i), 12int,
{
    lemma_markers_ok();
    if t[i] is End {
    } else {
        lemma_shape_function(t, i, c);
        match sp_function(t, i, c) {
            Err(m) => {},
            Ok(o) => {
                lemma_count_concat(acc, o.code, func_marker());
                lemma_count_concat(acc, o.code, endfunc_marker());
                if o.code.len() == 0 {
                    assert(acc + o.code =~= acc);
                } else {
                    assert((acc + o.code).last() == o.code.last());
                }
                lemma_shape_functions(t, o.i, o.c, acc + o.code);
            },
        }
    }
}

/// Over a whole parsed program, the `%func` header lines and the
/// `%endfunc` lines balance exactly: every function block opens with
/// one and closes with one.
pub proof fn theorem_func_endfunc_balanced(t: Seq<TokenV>, i: int)
    requires
        end_terminated(t),
        clean_tokens(t),
        0 <= i < t.len(),
        sp_program(t, i) is Ok,
    ensures
        mark_count(sp_program(t, i)->Ok_0.1, func_marker()) == mark_count(
            sp_program(t, i)->Ok_0.1,
            endfunc_marker(),
        ),
{
    lemma_tidy_empty();
    lemma_shape_functions(
        t,
        i,
        crate::phases::semantic_parser::initial_ctx(),
        Seq::<char>::empty(),
    );
}

// ---------------------------------------------------------------------
// The tokenizer's output is clean
// ---------------------------------------------------------------------

/// Identifier characters are never newlines, so the words the
/// tokenizer cuts out of the source are newline-free; and the token
/// sequence it returns always ends in the `End` sentinel.
pub proof fn lemma_lex_clean(s: Seq<char>, i: int)
    requires
        0 <= i <= s.len(),
    ensures
        ({
            let r = spec_lex_from(s, i);
            r is Ok ==> clean_tokens(r->Ok_0) && end_terminated(r->Ok_0)
        }),
    decreases s.len() - i,
{
    if i >= s.len() {
        let toks = seq![TokenV::End];
        assert(clean_tokens(toks));
        assert(end_terminated(toks));
    } else {
        let c = s[i];
        if crate::phases::lexer::is_letter(c) {
            let j = ident_end(s, i + 1);
            lemma_ident_end(s, i + 1);
            let j2 = if i + 1 <= j && j <= s.len() { j } else { i + 1 };
            lemma_lex_clean(s, j2);
            let word = s.subrange(i, j2);
            assert(no_newline(word));
            let tok = spec_create_identifier(word);
            assert(clean_token(tok)) by {
                match spec_keyword(word) {
                    Some(k) => {},
                    None => {},
                }
            }
            lemma_lex_cons(tok, spec_lex_from(s, j2));
        } else if crate::phases::lexer::is_digit(c) {
            let j2 = {
                let j = crate::phases::lexer::digits_end(s, i + 1);
                if i + 1 <= j && j <= s.len() { j } else { i + 1 }
            };
            crate::phases::lexer::lemma_digits_end(s, i + 1);
            lemma_lex_clean(s, j2);
            lemma_lex_cons(
                TokenV::Num(crate::phases::lexer::digits_val(s.subrange(i, j2)) as int),
                spec_lex_from(s, j2),
            );
        } else if c == '#' {
            let j2 = {
                let j = crate::phases::lexer::comment_end(s, i + 1);
                if i + 1 <= j && j <= s.len() { j } else { i + 1 }
            };
            crate::phases::lexer::lemma_comment_end(s, i + 1);
            lemma_lex_clean(s, j2);
        } else if c == '<' || c == '>' || c == '!' || c == '=' {
            if i + 1 < s.len() && s[i + 1] == '=' {
                lemma_lex_clean(s, i + 2);
                lemma_lex_cons_any(spec_lex_from(s, i + 2));
            } else {
                lemma_lex_clean(s, i + 1);
                lemma_lex_cons_any(spec_lex_from(s, i + 1));
            }
        } else {
            lemma_lex_clean(s, i + 1);
            lemma_lex_cons_any(spec_lex_from(s, i + 1));
        }
    }
}

/// Prepending a clean token keeps the token sequence clean and
/// `End`-terminated.
proof fn lemma_lex_cons(tok: TokenV, rest: Result<Seq<TokenV>, Seq<char>>)
    requires
        clean_token(tok),
        rest is Ok ==> clean_tokens(rest->Ok_0) && end_terminated(rest->Ok_0),
    ensures
        ({
            let r = crate::phases::lexer::cons_token(tok, rest);
            r is Ok ==> clean_tokens(r->Ok_0) && end_terminated(r->Ok_0)
        }),
{
    match rest {
        Ok(ts) => {
            let all = seq![tok] + ts;
            assert(all.last() == ts.last());
            assert forall|k: int| 0 <= k < all.len() implies clean_token(#[trigger] all[k]) by {
                if k > 0 {
                    assert(all[k] == ts[k - 1]);
                }
            }
        },
        Err(m) => {},
    }
}

/// Every token without text is clean, so consing any such token
/// preserves cleanliness whichever one it is.
proof fn lemma_lex_cons_any(rest: Result<Seq<TokenV>, Seq<char>>)
    requires
        rest is Ok ==> clean_tokens(rest->Ok_0) && end_terminated(rest->Ok_0),
    ensures
        forall|tok: TokenV|
            !(tok is Ident) ==> ({
                let r = #[trigger] crate::phases::lexer::cons_token(tok, rest);
                r is Ok ==> clean_tokens(r->Ok_0) && end_terminated(r->Ok_0)
            }),
{
    assert forall|tok: TokenV| !(tok is Ident) implies ({
        let r = #[trigger] crate::phases::lexer::cons_token(tok, rest);
        r is Ok ==> clean_tokens(r->Ok_0) && end_terminated(r->Ok_0)
    }) by {
        lemma_lex_cons(tok, rest);
    }
}

/// Programs that come out of the tokenizer and through the semantic
/// parse have balanced `%func` and `%endfunc` lines.
pub proof fn theorem_lexed_program_balanced(s: Seq<char>, toks: Seq<TokenV>, i: int)
    requires
        spec_lex_from(s, 0) == Ok::<Seq<TokenV>, Seq<char>>(toks),
        0 <= i < toks.len(),
        sp_program(toks, i) is Ok,
    ensures
        mark_count(sp_program(toks, i)->Ok_0.1, func_marker()) == mark_count(
            sp_program(toks, i)->Ok_0.1,
            endfunc_marker(),
        ),
{
    lemma_lex_clean(s, 0);
    theorem_func_endfunc_balanced(toks, i);
}

} // verus!

