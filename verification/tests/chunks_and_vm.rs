//! The chunk's emission and line-map behaviour, the machine's stack
//! limits, long constant operands, string objects and hashing, and the
//! lexer's stream invariants on a sample source.

use rlox::bytecode::opcodes::CONSTANT;
use rlox::bytecode::opcodes::CONSTANT_LONG;
use rlox::bytecode::opcodes::NIL;
use rlox::bytecode::opcodes::POP;
use rlox::bytecode::opcodes::PRINT;
use rlox::bytecode::opcodes::RETURN;
use rlox::bytecode::Chunk;
use rlox::lexer::get_tokens;
use rlox::lexer::LexError;
use rlox::token::Token;
use rlox::token::TokenType;
use rlox::runtime_val::RuntimeValue;
use rlox::table::hash_str;
use rlox::runtime_val::StringObj;
use rlox::vm::LoxRuntimeErr;
use rlox::vm::Vm;

#[test]
fn line_map_accounts_for_every_byte() {
    let mut chunk = Chunk::new();
    chunk.emit_opcode(NIL, 1);
    chunk.emit_opcode(POP, 1);
    chunk.emit_opcode(NIL, 2);
    chunk.emit_opcode(POP, 3);
    chunk.emit_opcode(RETURN, 3);
    assert_eq!(chunk.lines, vec![(1, 2), (2, 1), (3, 2)]);
    let total: usize = chunk.lines.iter().map(|p| p.1).sum();
    assert_eq!(total, chunk.code.len());
}

#[test]
fn line_lookup_walks_the_runs() {
    let mut chunk = Chunk::new();
    chunk.emit_opcode(NIL, 1);
    chunk.emit_opcode(NIL, 1);
    chunk.emit_opcode(NIL, 4);
    chunk.emit_opcode(RETURN, 7);
    assert_eq!(chunk.get_line_at_ip(0), 1);
    assert_eq!(chunk.get_line_at_ip(1), 1);
    assert_eq!(chunk.get_line_at_ip(2), 4);
    assert_eq!(chunk.get_line_at_ip(3), 7);
    // Past the end: the last recorded line.
    assert_eq!(chunk.get_line_at_ip(1000), 7);
}

#[test]
fn line_lookup_on_an_empty_map_is_zero() {
    let chunk = Chunk::new();
    assert_eq!(chunk.get_line_at_ip(0), 0);
}

#[test]
fn constant_indices_grow_into_long_operands() {
    let mut chunk = Chunk::new();
    for i in 0..300u32 {
        let _ = chunk.emit_constant(RuntimeValue::Number((i as f64).to_bits()), 1);
        chunk.emit_opcode(POP, 1);
    }
    // The first 255 constants use the short form, the rest the long form.
    assert_eq!(chunk.code[0], CONSTANT);
    let long_at = 255 * 3;
    assert_eq!(chunk.code[long_at], CONSTANT_LONG);
    assert_eq!(chunk.code[long_at + 1], 255);
    assert_eq!(chunk.code[long_at + 2], 0);
    assert_eq!(chunk.code[long_at + 3], 0);
    // Executing it pushes and pops each constant; the last one is printed.
    let _ = chunk.emit_constant(RuntimeValue::Number(299.0f64.to_bits()), 2);
    chunk.emit_opcode(PRINT, 2);
    chunk.emit_opcode(RETURN, 2);
    let mut vm = Vm::new(chunk);
    assert_eq!(vm.execute(), Ok(()));
    assert_eq!(vm.output().len(), 1);
    assert_eq!(vm.output()[0], RuntimeValue::Number(299.0f64.to_bits()));
}

#[test]
fn pushing_more_than_the_stack_holds_overflows() {
    let mut chunk = Chunk::new();
    for _ in 0..256 {
        let _ = chunk.emit_constant(RuntimeValue::Number(1.0f64.to_bits()), 1);
    }
    chunk.emit_opcode(RETURN, 1);
    let mut vm = Vm::new(chunk);
    assert_eq!(vm.execute(), Err(LoxRuntimeErr::StackOverflow));
}

#[test]
fn exactly_the_stack_capacity_fits() {
    let mut chunk = Chunk::new();
    for _ in 0..255 {
        let _ = chunk.emit_constant(RuntimeValue::Number(1.0f64.to_bits()), 1);
    }
    chunk.emit_opcode(RETURN, 1);
    let mut vm = Vm::new(chunk);
    assert_eq!(vm.execute(), Ok(()));
}

#[test]
fn popping_an_empty_stack_underflows() {
    let mut chunk = Chunk::new();
    chunk.emit_opcode(POP, 1);
    chunk.emit_opcode(RETURN, 1);
    let mut vm = Vm::new(chunk);
    assert_eq!(vm.execute(), Err(LoxRuntimeErr::StackUnderflow));
}

#[test]
fn fnv1a_test_vectors() {
    assert_eq!(hash_str(""), 0x811C9DC5);
    assert_eq!(hash_str("a"), 0xE40C292C);
    assert_eq!(hash_str("foobar"), 0xBF9CF968);
}

#[test]
fn string_objects_concatenate_and_rehash() {
    let a = StringObj::new("ab");
    let b = StringObj::new("cd");
    let c = a.concat(&b);
    assert_eq!(c.as_str(), "abcd");
    assert_eq!(c.hash, hash_str("abcd"));
    assert_eq!(a.as_str(), "ab");
}

#[test]
fn type_representations() {
    assert_eq!(RuntimeValue::Nil.type_repr(), "");
    assert_eq!(RuntimeValue::Bool(true).type_repr(), "bool");
    assert_eq!(RuntimeValue::Number(0).type_repr(), "number");
    assert_eq!(RuntimeValue::String(0).type_repr(), "string");
}

#[test]
fn lexeme_concatenation_reproduces_the_source() {
    let source = "var x = 1; // note\n{ print \"a b\n c\"; }\n  @ 1.5foo";
    let tokens = get_tokens(source);
    let mut joined = String::new();
    for t in &tokens {
        joined.push_str(t.lexeme);
    }
    assert_eq!(joined, source);
}

#[test]
fn token_lines_never_decrease() {
    let source = "print 1;\nprint \"a\nb\";\n\nprint 3;";
    let tokens = get_tokens(source);
    for w in tokens.windows(2) {
        assert!(w[0].line <= w[1].line);
    }
}

#[test]
fn unterminated_strings_lex_as_error_tokens() {
    let tokens = get_tokens("\"abc");
    assert_eq!(
        tokens,
        vec![Token::new(TokenType::Error(LexError::UnterminatedString), "\"abc", 1)],
    );
}

#[test]
fn unrecognized_characters_lex_as_error_tokens() {
    let tokens = get_tokens("@#");
    assert_eq!(
        tokens,
        vec![
            Token::new(TokenType::Error(LexError::InvalidCharacter), "@", 1),
            Token::new(TokenType::Error(LexError::InvalidCharacter), "#", 1),
        ],
    );
}

#[test]
fn number_lexemes_do_not_swallow_a_trailing_dot() {
    let tokens = get_tokens("1.");
    assert_eq!(
        tokens,
        vec![
            Token::new(TokenType::Number, "1", 1),
            Token::new(TokenType::Dot, ".", 1),
        ],
    );
}
