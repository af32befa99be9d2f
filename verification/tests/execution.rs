//! End-to-end runs: source in, printed lines out, matching the language's
//! arithmetic, comparison, equality, string and global-variable semantics,
//! and the diagnostics for programs that fail to compile or to run.

use rlox::compiler::CompileErr;
use rlox::compiler::Compiler;
use rlox::runtime_val::RuntimeValue;
use rlox::vm::LoxRuntimeErr;
use rlox::vm::Vm;

fn render(vm: &Vm, v: RuntimeValue) -> String {
    match v {
        RuntimeValue::Nil => "nil".to_string(),
        RuntimeValue::Bool(b) => format!("{}", b),
        RuntimeValue::Number(bits) => format!("{}", f64::from_bits(bits)),
        RuntimeValue::String(h) => vm.object(h).unwrap().as_str().to_string(),
    }
}

fn run_source(text: &str) -> (Result<(), LoxRuntimeErr>, Vec<String>) {
    let mut compiler = Compiler::new(text);
    let compiled = compiler.compile();
    assert!(compiled.is_ok());
    let mut vm = Vm::new(compiler.bytecode);
    let result = vm.execute();
    let mut lines: Vec<String> = Vec::new();
    for v in vm.output() {
        lines.push(render(&vm, *v));
    }
    (result, lines)
}

fn run_ok(text: &str) -> Vec<String> {
    let (result, lines) = run_source(text);
    assert_eq!(result, Ok(()));
    lines
}

fn compile_err(text: &str) -> (CompileErr, usize) {
    let mut compiler = Compiler::new(text);
    let result = compiler.compile();
    match result {
        Ok(()) => panic!("expected a compile error"),
        Err(e) => {
            let diags = compiler.diagnostics();
            assert!(diags.len() > 0);
            assert_eq!(diags[0].0, e);
            diags[0]
        },
    }
}

fn runtime_err(text: &str) -> LoxRuntimeErr {
    let (result, _) = run_source(text);
    match result {
        Ok(()) => panic!("expected a runtime error"),
        Err(e) => e,
    }
}

#[test]
fn multiplication_binds_tighter_than_addition() {
    assert_eq!(run_ok("print 1 + 2 * 3;"), vec!["7"]);
}

#[test]
fn grouping_overrides_precedence() {
    assert_eq!(run_ok("print (1 + 2) * 3;"), vec!["9"]);
}

#[test]
fn subtraction_is_left_associative() {
    assert_eq!(run_ok("print 10 - 3 - 2;"), vec!["5"]);
}

#[test]
fn division_is_left_associative() {
    assert_eq!(run_ok("print 8 / 4 / 2;"), vec!["1"]);
}

#[test]
fn string_concatenation() {
    assert_eq!(run_ok("print \"foo\" + \"bar\";"), vec!["foobar"]);
}

#[test]
fn not_nil_equals_true() {
    assert_eq!(run_ok("print !nil == true;"), vec!["true"]);
}

#[test]
fn comparison_boundaries() {
    assert_eq!(run_ok("print 5 <= 5;"), vec!["true"]);
    assert_eq!(run_ok("print 5 < 5;"), vec!["false"]);
}

#[test]
fn global_variable_roundtrip() {
    assert_eq!(run_ok("var x = 2; print x * x;"), vec!["4"]);
}

#[test]
fn nested_grouping_and_negation() {
    assert_eq!(run_ok("print -((1+2)*(3-5));"), vec!["6"]);
}

#[test]
fn equality_is_reflexive_for_values() {
    assert_eq!(
        run_ok("print 1 == 1; print \"a\" == \"a\"; print nil == nil; print true == true;"),
        vec!["true", "true", "true", "true"],
    );
}

#[test]
fn nan_is_not_equal_to_itself() {
    assert_eq!(run_ok("print 0/0 == 0/0;"), vec!["false"]);
}

#[test]
fn triple_negation_prints_the_negation() {
    assert_eq!(run_ok("print ---5;"), run_ok("print -5;"));
    assert_eq!(run_ok("print ---5;"), vec!["-5"]);
}

#[test]
fn strings_compare_by_contents_not_identity() {
    assert_eq!(run_ok("print \"ab\" + \"c\" == \"a\" + \"bc\";"), vec!["true"]);
}

#[test]
fn cross_type_equality_is_false() {
    assert_eq!(run_ok("print 1 == \"1\"; print nil == false;"), vec!["false", "false"]);
}

#[test]
fn truthiness_of_zero_and_empty_string() {
    assert_eq!(run_ok("print !0; print !\"\"; print !false;"), vec!["false", "false", "true"]);
}

#[test]
fn assignment_is_an_expression() {
    assert_eq!(run_ok("var x = 1; print x = 3; print x;"), vec!["3", "3"]);
}

#[test]
fn blocks_execute_in_order() {
    assert_eq!(run_ok("{ print 1; { print 2; } } print 3;"), vec!["1", "2", "3"]);
}

#[test]
fn comments_are_ignored() {
    assert_eq!(run_ok("print 1; // print 2;\nprint 3;"), vec!["1", "3"]);
}

#[test]
fn uninitialized_variable_is_nil() {
    assert_eq!(run_ok("var x; print x;"), vec!["nil"]);
}

#[test]
fn missing_operand_after_plus() {
    assert_eq!(compile_err("print 1 + ;"), (CompileErr::ExpectedExpr, 1));
}

#[test]
fn missing_trailing_semicolon() {
    assert_eq!(compile_err("1 + 2").0, CompileErr::UnexpectedToken);
}

#[test]
fn var_without_identifier() {
    assert_eq!(compile_err("var = 1;").0, CompileErr::ExpectedIdentifier);
}

#[test]
fn unterminated_block() {
    assert_eq!(compile_err("{ print 1;").0, CompileErr::UnclosedBlock);
}

#[test]
fn invalid_assignment_target() {
    assert_eq!(compile_err("1 = 2;").0, CompileErr::InvalidAssignmentTarget);
}

#[test]
fn error_line_is_the_offending_line() {
    assert_eq!(compile_err("print 1;\nprint 2 + ;"), (CompileErr::ExpectedExpr, 2));
}

#[test]
fn reserved_statements_are_unimplemented() {
    assert_eq!(compile_err("if (true) { print 1; }").0, CompileErr::Unimplemented);
    assert_eq!(compile_err("class Duck {}").0, CompileErr::Unimplemented);
    assert_eq!(compile_err("print this;").0, CompileErr::Unimplemented);
}

#[test]
fn statement_must_start_with_declaration_or_expression() {
    assert_eq!(compile_err("else;").0, CompileErr::ExpectedDeclOrStmt);
}

#[test]
fn lexing_errors_surface_as_compile_errors() {
    assert_eq!(compile_err("print @;").0, CompileErr::LexError);
    assert_eq!(compile_err("print \"abc;").0, CompileErr::LexError);
}

#[test]
fn first_error_wins_but_all_are_collected() {
    let mut compiler = Compiler::new("print + ;\nvar = 1;");
    let result = compiler.compile();
    assert_eq!(result, Err(CompileErr::ExpectedExpr));
    let diags = compiler.diagnostics();
    assert!(diags.len() >= 2);
    assert_eq!(diags[0], (CompileErr::ExpectedExpr, 1));
    assert_eq!(diags[1], (CompileErr::ExpectedIdentifier, 2));
}

#[test]
fn adding_number_and_string_is_a_type_error() {
    assert_eq!(runtime_err("print 1 + \"a\";"), LoxRuntimeErr::InvalidType);
}

#[test]
fn negating_a_string_is_a_type_error() {
    assert_eq!(runtime_err("print -\"a\";"), LoxRuntimeErr::InvalidType);
}

#[test]
fn negating_nil_is_a_missing_operand() {
    assert_eq!(runtime_err("print -nil;"), LoxRuntimeErr::MissingOperand);
}

#[test]
fn comparing_strings_is_a_type_error() {
    assert_eq!(runtime_err("print \"a\" < \"b\";"), LoxRuntimeErr::InvalidType);
}

#[test]
fn reading_an_undefined_global_fails() {
    assert_eq!(runtime_err("print x;"), LoxRuntimeErr::UndefinedGlobal);
}

#[test]
fn assigning_an_undefined_global_fails() {
    assert_eq!(runtime_err("x = 1;"), LoxRuntimeErr::UndefinedGlobal);
}

#[test]
fn globals_can_be_redefined_and_shadow_nothing() {
    assert_eq!(run_ok("var x = 1; var x = 2; print x;"), vec!["2"]);
}

#[test]
fn too_many_global_names_fail_to_compile() {
    let mut source = String::new();
    for i in 0..200 {
        source.push_str(&format!("var name{} = {};\n", i, i));
    }
    let mut compiler = Compiler::new(&source);
    let result = compiler.compile();
    assert_eq!(result, Err(CompileErr::TooManyConstants));
}

#[test]
fn deep_nesting_overflows_the_value_stack() {
    let mut source = String::from("print ");
    for _ in 0..300 {
        source.push_str("(1+");
    }
    source.push('1');
    for _ in 0..300 {
        source.push(')');
    }
    source.push(';');
    assert_eq!(runtime_err(&source), LoxRuntimeErr::StackOverflow);
}
