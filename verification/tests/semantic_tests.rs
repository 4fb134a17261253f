use rustcompiler::numeral::i32_string;
use rustcompiler::phases::lexer::Token;
use rustcompiler::phases::lexer::create_identifier;
use rustcompiler::phases::lexer::lex;
use rustcompiler::phases::semantic_parser::ParseContext;
use rustcompiler::phases::semantic_parser::SymbolType;
use rustcompiler::phases::semantic_parser::at_end;
use rustcompiler::phases::semantic_parser::parse_bool;
use rustcompiler::phases::semantic_parser::parse_break_statement;
use rustcompiler::phases::semantic_parser::parse_continue_statement;
use rustcompiler::phases::semantic_parser::parse_expression;
use rustcompiler::phases::semantic_parser::parse_program;
use rustcompiler::phases::semantic_parser::parse_statement;

fn compile(source: &str) -> Result<String, String> {
    let tokens = lex(source).expect("tokenizing failed");
    let mut index = 0;
    parse_program(&tokens, &mut index)
}

#[test]
fn scalar_assignment_program_ir() {
    // One scalar, one addition, one return: the exact emitted IR.
    let ir = compile("func main() { int x; x = 1 + 2; return x; }").unwrap();
    assert_eq!(ir, "%func main()\n%int x\n%int t0\n%add t0, 1, 2\n%mov x, t0\n%ret x\n%endfunc\n");
}

#[test]
fn break_outside_loop_fails() {
    let err = compile("func main() { break; }").unwrap_err();
    assert_eq!(err, "Semantic Analysis: break statement not within a loop");
}

#[test]
fn continue_outside_loop_fails() {
    let err = compile("func main() { continue; }").unwrap_err();
    assert_eq!(err, "Error: continue statement not within a loop");
}

#[test]
fn missing_main_fails() {
    let err = compile("func foo() { return 0; }").unwrap_err();
    assert_eq!(err, "Semantic Analysis: Did not find main function");
}

#[test]
fn array_read_goes_through_temp() {
    // An indexed store, then a temp-mediated read back out of the array.
    let ir = compile("func main() { int[5] a; a[0] = 3; return a[0]; }").unwrap();
    assert_eq!(
        ir,
        "%func main()\n%int[] a, 5\n%mov [a + 0], 3\n%int t0\n%mov t0, [a + 0]\n%ret t0\n%endfunc\n"
    );
    assert!(ir.contains("%int[] a, 5"));
    assert!(ir.contains("%mov [a + 0], 3"));
    assert!(ir.contains("%mov t0, [a + 0]"));
}

#[test]
fn temps_are_distinct_and_increasing() {
    let ir = compile("func main() { int x; x = 1 + 2 + 3; return x; }").unwrap();
    assert_eq!(
        ir,
        "%func main()\n%int x\n%int t0\n%add t0, 1, 2\n%int t1\n%add t1, t0, 3\n%mov x, t1\n%ret x\n%endfunc\n"
    );
}

#[test]
fn func_endfunc_match_per_function() {
    let ir = compile("func helper() { return 1; } func main() { return 0; }").unwrap();
    assert_eq!(ir.matches("%func ").count(), 2);
    assert_eq!(ir.matches("%endfunc").count(), 2);
    assert_eq!(ir, "%func helper()\n%ret 1\n%endfunc\n%func main()\n%ret 0\n%endfunc\n");
}

#[test]
fn duplicate_declaration_in_one_scope_fails() {
    let err = compile("func main() { int x; int x; return 0; }").unwrap_err();
    assert_eq!(err, "Semantic Analysis: Found duplicate variable x");
}

#[test]
fn same_name_in_two_functions_succeeds() {
    let ir = compile("func foo() { int x; return x; } func main() { int x; return x; }").unwrap();
    assert_eq!(ir.matches("%int x").count(), 2);
}

#[test]
fn duplicate_function_name_fails() {
    let err = compile("func foo() { return 0; } func foo() { return 1; }").unwrap_err();
    assert_eq!(err, "Semantic Analysis: Found duplicate function foo");
}

#[test]
fn undeclared_term_fails() {
    let err = compile("func main() { int x; x = y; return x; }").unwrap_err();
    assert_eq!(err, "Semantic Analysis: Variable y not declared before use as term");
}

#[test]
fn undeclared_assignment_target_fails() {
    let err = compile("func main() { y = 1; return 0; }").unwrap_err();
    assert_eq!(err, "Semantic Analysis: Variable y not declared before assignment");
}

#[test]
fn indexing_a_scalar_fails() {
    let err = compile("func main() { int a; a[0] = 1; return 0; }").unwrap_err();
    assert_eq!(err, "Semantic Analysis: a is not array");
}

#[test]
fn array_used_as_scalar_fails() {
    let err = compile("func main() { int[5] a; return a; }").unwrap_err();
    assert_eq!(err, "Semantic Analysis: a is not variable");
}

#[test]
fn zero_sized_array_fails() {
    let err = compile("func main() { int[0] a; return 0; }").unwrap_err();
    assert_eq!(err, "Semantic Analysis: Cannot have array sized 0");
}

#[test]
fn break_in_nested_loop_targets_inner_end_label() {
    // Outer loop: end :0, start :1. Inner loop: end :2, start :3.
    let ir = compile(
        "func main() { int x; while x < 9 { while x < 5 { break; } } return x; }",
    )
    .unwrap();
    assert!(ir.contains("%jmp :2\n"));
    assert!(!ir.contains("%jmp :0"));
}

#[test]
fn continue_targets_same_label_as_break() {
    let with_break = compile("func main() { int x; while x < 9 { break; } return x; }").unwrap();
    let with_continue =
        compile("func main() { int x; while x < 9 { continue; } return x; }").unwrap();
    assert_eq!(with_break, with_continue);
    assert!(with_break.contains("%jmp :0\n"));
}

#[test]
fn while_loop_ir_shape() {
    // End label first (:0), then the start label (:1); no back edge.
    let ir = compile("func main() { int x; while x < 2 { x = 3; } return x; }").unwrap();
    assert_eq!(
        ir,
        "%func main()\n%int x\n:1\n%int t0\n%lt t0, x, 2\n%branch_ifn t0, :0\n%mov x, 3\n:0\n%ret x\n%endfunc\n"
    );
}

#[test]
fn if_else_ir_shape() {
    // End label :0 allocated before the false label :1.
    let ir = compile("func main() { int x; if x < 2 { x = 1; } else { x = 2; } return x; }")
        .unwrap();
    assert_eq!(
        ir,
        "%func main()\n%int x\n%int t0\n%lt t0, x, 2\n%branch_ifn t0, :1\n%mov x, 1\n:1\n%mov x, 2\n:0\n%ret x\n%endfunc\n"
    );
}

#[test]
fn function_parameters_ir() {
    let ir = compile("func add(int a, int b) { return a + b; } func main() { return 0; }")
        .unwrap();
    assert_eq!(
        ir,
        "%func add(%int a, %int b)\n%int t0\n%add t0, a, b\n%ret t0\n%endfunc\n%func main()\n%ret 0\n%endfunc\n"
    );
}

#[test]
fn call_ir_shape() {
    let ir = compile("func main() { int f; int x; x = f(1, 2); return x; }").unwrap();
    assert_eq!(
        ir,
        "%func main()\n%int f\n%int x\n%int t0\n%call t0, f(1,2)\n%mov x, t0\n%ret x\n%endfunc\n"
    );
}

#[test]
fn print_and_read_ir() {
    let ir = compile("func main() { int x; read x; print x + 1; return x; }").unwrap();
    assert_eq!(
        ir,
        "%func main()\n%int x\n%input x\n%int t0\n%add t0, x, 1\n%out t0\n%ret x\n%endfunc\n"
    );
}

#[test]
fn multiplicative_precedence_ir() {
    // b * c is lowered first, then added to a.
    let ir = compile(
        "func main() { int a; int b; int c; int x; x = a + b * c; return x; }",
    )
    .unwrap();
    assert!(ir.contains("%mult t0, b, c\n"));
    assert!(ir.contains("%add t1, a, t0\n"));
}

#[test]
fn reparse_is_byte_identical() {
    let source = "func main() { int x; while x < 3 { x = x + 1; } print x; return x; }";
    let first = compile(source).unwrap();
    let second = compile(source).unwrap();
    assert_eq!(first, second);
}

#[test]
fn statement_dispatch_rejects_stray_token() {
    let tokens = lex("} ;").unwrap();
    let mut ctx = ParseContext::new();
    ctx.enter_scope();
    let mut index = 0;
    let err = parse_statement(&tokens, &mut index, &mut ctx).unwrap_err();
    assert_eq!(err, "Parser: Invalid statement");
}

#[test]
fn break_with_unset_end_label_fails() {
    let tokens = lex("break;").unwrap();
    let mut ctx = ParseContext::new();
    ctx.enter_scope();
    ctx.in_loop = true;
    let mut index = 0;
    let err = parse_break_statement(&tokens, &mut index, &mut ctx).unwrap_err();
    assert_eq!(err, "Error: CURRENT_END_LABEL is empty.");
    let tokens = lex("continue;").unwrap();
    let mut index = 0;
    let err = parse_continue_statement(&tokens, &mut index, &mut ctx).unwrap_err();
    assert_eq!(err, "Error: CURRENT_END_LABEL is empty.");
}

#[test]
fn compound_condition_is_one_comparison_line() {
    // The right operand's code comes first; the comparison itself is a
    // single instruction line.
    let ir = compile("func main() { int x; if x < 2 * 3 { x = 1; } return x; }").unwrap();
    assert_eq!(
        ir,
        "%func main()\n%int x\n%int t1\n%mult t1, 2, 3\n%int t0\n%lt t0, x, t1\n%branch_ifn t0, :1\n%mov x, 1\n:1\n:0\n%ret x\n%endfunc\n"
    );
    for line in ir.lines() {
        assert!(line.starts_with('%') || line.starts_with(':'));
    }
}

#[test]
fn bool_with_compound_right_operand() {
    let tokens = lex("1 < 2 * 3").unwrap();
    let mut ctx = ParseContext::new();
    ctx.enter_scope();
    let mut index = 0;
    let e = parse_bool(&tokens, &mut index, &mut ctx).unwrap();
    assert_eq!(e.code, "%int t1\n%mult t1, 2, 3\n%int t0\n%lt t0, 1, t1\n");
    assert_eq!(e.name, "t0");
}

#[test]
fn bool_requires_comparison() {
    let tokens = lex("1 + 2").unwrap();
    let mut ctx = ParseContext::new();
    ctx.enter_scope();
    let mut index = 0;
    let err = parse_bool(&tokens, &mut index, &mut ctx).unwrap_err();
    assert_eq!(err, "Parser: Boolean expression expects a comparison operator");
}

#[test]
fn expression_lowering_names_and_temps() {
    let tokens = lex("1 + 2 * 3").unwrap();
    let mut ctx = ParseContext::new();
    ctx.enter_scope();
    let mut index = 0;
    let e = parse_expression(&tokens, &mut index, &mut ctx).unwrap();
    assert_eq!(e.code, "%int t0\n%mult t0, 2, 3\n%int t1\n%add t1, 1, t0\n");
    assert_eq!(e.name, "t1");
}

#[test]
fn context_tracks_scopes_and_kinds() {
    let mut ctx = ParseContext::new();
    ctx.enter_scope();
    ctx.add_symbol("f".to_string(), SymbolType::Function);
    ctx.enter_scope();
    ctx.add_symbol("a".to_string(), SymbolType::Array);
    // only the innermost scope is visible
    assert!(ctx.find_symbol(&"a".to_string()));
    assert!(!ctx.find_symbol(&"f".to_string()));
    assert!(matches!(ctx.find_symbol_type(&"a".to_string()), SymbolType::Array));
    // an absent name defaults to Variable
    assert!(matches!(ctx.find_symbol_type(&"f".to_string()), SymbolType::Variable));
    ctx.exit_scope();
    assert!(ctx.find_symbol(&"f".to_string()));
    assert!(matches!(ctx.find_symbol_type(&"f".to_string()), SymbolType::Function));
}

#[test]
fn name_allocators_never_repeat() {
    let mut ctx = ParseContext::new();
    assert_eq!(ctx.create_temp(), "t0");
    assert_eq!(ctx.create_temp(), "t1");
    assert_eq!(ctx.create_temp(), "t2");
    assert_eq!(ctx.create_label(), ":0");
    assert_eq!(ctx.create_label(), ":1");
}

#[test]
fn at_end_spots_the_sentinel() {
    let tokens = lex("x").unwrap();
    assert!(!at_end(&tokens, 0));
    assert!(at_end(&tokens, 1));
}

#[test]
fn keywords_and_identifiers_classified() {
    assert_eq!(create_identifier("func"), Token::Func);
    assert_eq!(create_identifier("return"), Token::Return);
    assert_eq!(create_identifier("int"), Token::Int);
    assert_eq!(create_identifier("print"), Token::Print);
    assert_eq!(create_identifier("else"), Token::Else);
    assert_eq!(create_identifier("break"), Token::Break);
    assert_eq!(create_identifier("continue"), Token::Continue);
    assert_eq!(create_identifier("while"), Token::While);
    assert_eq!(create_identifier("if"), Token::If);
    assert_eq!(create_identifier("read"), Token::Read);
    assert_eq!(create_identifier("main"), Token::Ident("main".to_string()));
    assert_eq!(create_identifier("func1"), Token::Ident("func1".to_string()));
}

#[test]
fn lexer_error_messages_are_exact() {
    assert_eq!(lex("&").unwrap_err(), "Lexer: Unrecognized symbol '&'");
    assert_eq!(lex("!").unwrap_err(), "Lexer: Unrecognized symbol '!'");
    assert_eq!(
        lex("123abc").unwrap_err(),
        "Lexer: Invalid variable name starting with a number at: 123a"
    );
}

#[test]
fn numbers_at_the_i32_boundary() {
    assert_eq!(lex("2147483647").unwrap()[0], Token::Num(2147483647));
    assert!(lex("2147483648").is_err());
    // leading zeros keep the value small
    assert_eq!(lex("00000000000000000001").unwrap()[0], Token::Num(1));
}

#[test]
fn negative_numerals_render_with_sign() {
    assert_eq!(i32_string(-5), "-5");
    assert_eq!(i32_string(0), "0");
    assert_eq!(i32_string(2147483647), "2147483647");
    assert_eq!(i32_string(-2147483648), "-2147483648");
}

#[test]
fn not_equal_lowered_as_neq() {
    let ir = compile("func main() { int x; if x != 1 { x = 2; } return x; }").unwrap();
    assert!(ir.contains("%neq t0, x, 1\n"));
}

#[test]
fn modulo_and_division_lowered() {
    let ir = compile("func main() { int x; x = 7 / 2 % 3; return x; }").unwrap();
    assert!(ir.contains("%div t0, 7, 2\n"));
    assert!(ir.contains("%mod t1, t0, 3\n"));
}
