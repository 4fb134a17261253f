//! Laws of the semantic parse, stated over the ghost mirror and proved
//! once for all inputs.

use vstd::prelude::*;

use crate::numeral::lemma_dec_digits_injective;
use crate::phases::emission::clean_tokens;
use crate::phases::emission::lemma_shape_function;
use crate::phases::emission::clean_ctx;
use crate::phases::lexer::TokenV;
use crate::phases::lexer::spec_lex_from;
use crate::phases::semantic_parser::CtxV;
use crate::phases::semantic_parser::ExprOut;
use crate::phases::semantic_parser::StmtOut;
use crate::phases::semantic_parser::SymbolType;
use crate::phases::semantic_parser::initial_ctx;
use crate::phases::semantic_parser::label_name;
use crate::phases::semantic_parser::scope_lookup;
use crate::phases::semantic_parser::sp_assignment_statement;
use crate::phases::semantic_parser::sp_break_statement;
use crate::phases::semantic_parser::sp_continue_statement;
use crate::phases::semantic_parser::sp_declaration_statement;
use crate::phases::semantic_parser::sp_find;
use crate::phases::semantic_parser::sp_functions;
use crate::phases::semantic_parser::sp_kind;
use crate::phases::semantic_parser::sp_program;
use crate::phases::semantic_parser::sp_function;
use crate::phases::semantic_parser::sp_term;
use crate::phases::semantic_parser::end_terminated;
use crate::phases::semantic_parser::temp_name;
use crate::phases::semantic_parser::toks_rem;

verus! {

/// No two temporary-name allocations in one compilation coincide: the
/// counter advances at every allocation, and distinct counter values
/// give distinct names.
pub proof fn theorem_temp_names_unique(a: nat, b: nat)
    requires
        a != b,
    ensures
        temp_name(a) != temp_name(b),
{
    reveal_strlit("t");
    if temp_name(a) == temp_name(b) {
        assert(temp_name(a).skip(1) =~= crate::numeral::dec_digits(a));
        assert(temp_name(b).skip(1) =~= crate::numeral::dec_digits(b));
        lemma_dec_digits_injective(a, b);
    }
}

/// As `theorem_temp_names_unique`, for jump labels.
pub proof fn theorem_label_names_unique(a: nat, b: nat)
    requires
        a != b,
    ensures
        label_name(a) != label_name(b),
{
    reveal_strlit(":");
    if label_name(a) == label_name(b) {
        assert(label_name(a).skip(1) =~= crate::numeral::dec_digits(a));
        assert(label_name(b).skip(1) =~= crate::numeral::dec_digits(b));
        lemma_dec_digits_injective(a, b);
    }
}

/// Declaring a name already present in the current scope always fails
/// with the duplicate-variable error.
pub proof fn theorem_duplicate_declaration_rejected(
    t: Seq<TokenV>,
    i: int,
    c: CtxV,
    name: Seq<char>,
)
    requires
        0 <= i < t.len(),
        t[i] is Int,
        t[i + 1] == TokenV::Ident(name),
        sp_find(c, name),
    ensures
        sp_declaration_statement(t, i, c) == Err::<StmtOut, Seq<char>>(
            "Semantic Analysis: Found duplicate variable "@ + name,
        ),
{
}

/// Whether a declaration is accepted depends only on the innermost
/// scope: contexts that agree on it accept and reject the same
/// declarations, with the same message and the same emitted code.
/// Together with `theorem_fresh_scope_hides_outer` this is scope
/// isolation: the same name can be declared in two different functions.
pub proof fn theorem_declaration_scope_local(t: Seq<TokenV>, i: int, c1: CtxV, c2: CtxV)
    requires
        c1.scopes.len() > 0,
        c2.scopes.len() > 0,
        c1.scopes.last() == c2.scopes.last(),
    ensures
        ({
            let r1 = sp_declaration_statement(t, i, c1);
            let r2 = sp_declaration_statement(t, i, c2);
            &&& (r1 is Ok <==> r2 is Ok)
            &&& (r1 is Err ==> r1->Err_0 == r2->Err_0)
            &&& (r1 is Ok ==> r1->Ok_0.i == r2->Ok_0.i && r1->Ok_0.code == r2->Ok_0.code)
        }),
{
}

/// A freshly entered scope hides everything declared outside it: no
/// name is found, whatever the enclosing scopes hold.
pub proof fn theorem_fresh_scope_hides_outer(c: CtxV, name: Seq<char>)
    ensures
        !sp_find(CtxV { scopes: c.scopes.push(Seq::empty()), ..c }, name),
        sp_kind(CtxV { scopes: c.scopes.push(Seq::empty()), ..c }, name) is Variable,
{
    let c2 = CtxV { scopes: c.scopes.push(Seq::empty()), ..c };
    assert(c2.scopes.last() =~= Seq::<(Seq<char>, SymbolType)>::empty());
}

/// An identifier used as a term must be declared; otherwise the parse
/// fails with the undeclared-variable error.
pub proof fn theorem_undeclared_term_rejected(t: Seq<TokenV>, i: int, c: CtxV, name: Seq<char>)
    requires
        0 <= i < t.len(),
        t[i] == TokenV::Ident(name),
        !sp_find(c, name),
    ensures
        sp_term(t, i, c) == Err::<ExprOut, Seq<char>>(
            "Semantic Analysis: Variable "@ + name + " not declared before use as term"@,
        ),
{
}

/// An assignment target must be declared; otherwise the parse fails
/// with the undeclared-variable error.
pub proof fn theorem_undeclared_assignment_rejected(
    t: Seq<TokenV>,
    i: int,
    c: CtxV,
    name: Seq<char>,
)
    requires
        0 <= i < t.len(),
        t[i] == TokenV::Ident(name),
        !sp_find(c, name),
    ensures
        sp_assignment_statement(t, i, c) == Err::<StmtOut, Seq<char>>(
            "Semantic Analysis: Variable "@ + name + " not declared before assignment"@,
        ),
{
}

/// An indexed assignment target must be an array; a declared symbol of
/// any other kind is rejected.
pub proof fn theorem_non_array_indexing_rejected(t: Seq<TokenV>, i: int, c: CtxV, name: Seq<char>)
    requires
        0 <= i < t.len(),
        t[i] == TokenV::Ident(name),
        t[i + 1] is LeftBracket,
        sp_find(c, name),
        !(sp_kind(c, name) is Array),
    ensures
        sp_assignment_statement(t, i, c) == Err::<StmtOut, Seq<char>>(
            "Semantic Analysis: "@ + name + " is not array"@,
        ),
{
}

/// `break;` and `continue;` outside any enclosing loop always fail,
/// whatever the tokens around them.
pub proof fn theorem_break_outside_loop_rejected(t: Seq<TokenV>, i: int, c: CtxV)
    requires
        !c.in_loop,
    ensures
        sp_break_statement(t, i, c) == Err::<StmtOut, Seq<char>>(
            "Semantic Analysis: break statement not within a loop"@,
        ),
        sp_continue_statement(t, i, c) == Err::<StmtOut, Seq<char>>(
            "Error: continue statement not within a loop"@,
        ),
{
}

/// Inside a loop, `break;` and `continue;` both succeed and both emit a
/// jump to the innermost loop's end label, which the enclosing `while`
/// installed in the context.
pub proof fn theorem_break_continue_jump_to_end(t: Seq<TokenV>, i: int, c: CtxV)
    requires
        0 <= i < t.len(),
        c.in_loop,
        c.end_label.len() > 0,
        t[i + 1] is Semicolon,
    ensures
        t[i] is Break ==> sp_break_statement(t, i, c) == Ok::<StmtOut, Seq<char>>(
            StmtOut { i: i + 2, c, code: "%jmp "@ + c.end_label + "\n"@ },
        ),
        t[i] is Continue ==> sp_continue_statement(t, i, c) == Ok::<StmtOut, Seq<char>>(
            StmtOut { i: i + 2, c, code: "%jmp "@ + c.end_label + "\n"@ },
        ),
{
}

/// A program whose functions all parse but which never declared `main`
/// fails with the missing-main error, however well-formed it is
/// otherwise.
pub proof fn theorem_missing_main_rejected(t: Seq<TokenV>, i: int)
    requires
        sp_functions(t, i, initial_ctx(), Seq::empty()) is Ok,
        !sp_find(sp_functions(t, i, initial_ctx(), Seq::empty())->Ok_0.c, "main"@),
    ensures
        sp_program(t, i) == Err::<(int, Seq<char>), Seq<char>>(
            "Semantic Analysis: Did not find main function"@,
        ),
{
}

/// The semantic parse is a function of the token sequence alone: any
/// two results that satisfy `parse_program`'s contract for the same
/// tokens are identical, byte for byte. Temporary and label counters
/// live in a context created afresh inside each parse, so nothing leaks
/// between invocations.
pub proof fn theorem_parse_deterministic(
    t: Seq<TokenV>,
    i: int,
    r1: Result<(int, Seq<char>), Seq<char>>,
    r2: Result<(int, Seq<char>), Seq<char>>,
)
    requires
        r1 == sp_program(t, i),
        r2 == sp_program(t, i),
    ensures
        r1 == r2,
{
}

/// The tokenizer is likewise a function of the source text alone.
pub proof fn theorem_lex_deterministic(
    s: Seq<char>,
    r1: Result<Seq<TokenV>, Seq<char>>,
    r2: Result<Seq<TokenV>, Seq<char>>,
)
    requires
        r1 == spec_lex_from(s, 0),
        r2 == spec_lex_from(s, 0),
    ensures
        r1 == r2,
{
}

// ---------------------------------------------------------------------
// Scope effects: a successful program declares `main`
// ---------------------------------------------------------------------

/// Looking a name up in a scope extended at its end: either it was
/// there before, or it is the new entry.
proof fn lemma_lookup_push(sc: Seq<(Seq<char>, SymbolType)>, p: (Seq<char>, SymbolType), x: Seq<char>)
    ensures
        scope_lookup(sc.push(p), x) == (if scope_lookup(sc, x) is Some {
            scope_lookup(sc, x)
        } else if p.0 == x {
            Some(p.1)
        } else {
            None::<SymbolType>
        }),
    decreases sc.len(),
{
    if sc.len() == 0 {
        assert(sc.push(p)[0] == p);
        assert(sc.push(p).drop_first() =~= Seq::<(Seq<char>, SymbolType)>::empty());
    } else {
        assert(sc.push(p).drop_first() =~= sc.drop_first().push(p));
        lemma_lookup_push(sc.drop_first(), p, x);
    }
}

/// If a name is visible in the global scope after the function loop
/// and was not visible before it, some parsed function bears that name:
/// a function's whole scope effect is to add its own name to the
/// enclosing scope (`lemma_shape_function`).
#[verifier::rlimit(100)]
#[verifier::spinoff_prover]
proof fn lemma_functions_declare_names(t: Seq<TokenV>, i: int, c: CtxV, acc: Seq<char>, x: Seq<char>)
    requires
        end_terminated(t),
        clean_tokens(t),
        0 <= i < t.len(),
        clean_ctx(c),
        c.scopes.len() > 0,
    ensures
        ({
            let r = sp_functions(t, i, c, acc);
            (r is Ok && sp_find(r->Ok_0.c, x) && !sp_find(c, x)) ==> exists|j: int|
                i <= j && j + 1 < t.len() && #[trigger] t[j] is Func && t[j + 1]
                    == TokenV::Ident(x)
        }),
    decreases toks_rem(t, i), 12int,
{
    if t[i] is End {
    } else {
        lemma_shape_function(t, i, c);
        match sp_function(t, i, c) {
            Err(m) => {},
            Ok(o) => {
                let name = t[i + 1]->Ident_0;
                lemma_lookup_push(c.scopes.last(), (name, SymbolType::Function), x);
                assert(o.c.scopes.last() == c.scopes.last().push((name, SymbolType::Function)));
                lemma_functions_declare_names(t, o.i, o.c, acc + o.code, x);
                let r = sp_functions(t, i, c, acc);
                if r is Ok && sp_find(r->Ok_0.c, x) && !sp_find(c, x) {
                    if sp_find(o.c, x) {
                        assert(name == x);
                        assert(t[i] is Func && t[i + 1] == TokenV::Ident(x));
                        crate::phases::semantic_parser::lemma_not_end_bound(t, i);
                        assert(i <= i && i + 1 < t.len() && t[i] is Func && t[i + 1]
                            == TokenV::Ident(x));
                    }
                }
            },
        }
    }
}

/// A program the semantic parse accepts always contains a `func main`
/// header: without one, the parse fails with the missing-main error.
pub proof fn theorem_accepted_program_has_main(t: Seq<TokenV>, i: int)
    requires
        end_terminated(t),
        clean_tokens(t),
        0 <= i < t.len(),
        sp_program(t, i) is Ok,
    ensures
        exists|j: int|
            i <= j && j + 1 < t.len() && #[trigger] t[j] is Func && t[j + 1] == TokenV::Ident(
                "main"@,
            ),
{
    let c0 = initial_ctx();
    assert(!sp_find(c0, "main"@)) by {
        assert(c0.scopes.last() =~= Seq::<(Seq<char>, SymbolType)>::empty());
    }
    lemma_functions_declare_names(t, i, c0, Seq::empty(), "main"@);
}

} // verus!

