//! The exact byte sequences and constant pools the compiler emits for
//! arithmetic, comparison and equality expressions: precedence and
//! associativity are fully visible in the emitted opcode order.

use rlox::bytecode::opcodes::ADD;
use rlox::bytecode::opcodes::CONSTANT;
use rlox::bytecode::opcodes::DIVIDE;
use rlox::bytecode::opcodes::EQUAL;
use rlox::bytecode::opcodes::GREATER;
use rlox::bytecode::opcodes::LESS;
use rlox::bytecode::opcodes::MULTIPLY;
use rlox::bytecode::opcodes::NEGATE;
use rlox::bytecode::opcodes::NOT;
use rlox::bytecode::opcodes::POP;
use rlox::bytecode::opcodes::RETURN;
use rlox::bytecode::opcodes::SUBTRACT;
use rlox::bytecode::opcodes::TRUE;
use rlox::bytecode::Chunk;
use rlox::compiler::Compiler;
use rlox::runtime_val::RuntimeValue;

fn get_chunk(text: &str) -> Chunk {
    let mut compiler = Compiler::new(text);
    let result = compiler.compile();
    assert!(result.is_ok());
    compiler.bytecode
}

fn assert_number_constants(chunk: &Chunk, expected: &[f64]) {
    assert_eq!(chunk.constants.len(), expected.len());
    for i in 0..chunk.constants.len() {
        match chunk.constants[i] {
            RuntimeValue::Number(n) => assert_eq!(n, expected[i].to_bits()),
            _ => assert!(false),
        }
    }
}

#[test]
fn arithmetic_expression_1() {
    let bytecode = get_chunk("1 + 2 * 5 - 6 / 3;");
    let expected_opcodes = vec![
        CONSTANT, 0, CONSTANT, 1, CONSTANT, 2, MULTIPLY, ADD, CONSTANT, 3, CONSTANT, 4, DIVIDE,
        SUBTRACT, POP, RETURN,
    ];
    assert_eq!(bytecode.code, expected_opcodes);
    assert_number_constants(&bytecode, &[1.0, 2.0, 5.0, 6.0, 3.0]);
}

#[test]
fn airthmetic_expression_2() {
    let bytecode = get_chunk("0.3 - 1.2 - 100.1;");
    let expected_opcodes = vec![
        CONSTANT, 0, CONSTANT, 1, SUBTRACT, CONSTANT, 2, SUBTRACT, POP, RETURN,
    ];
    assert_eq!(bytecode.code, expected_opcodes);
    assert_number_constants(&bytecode, &[0.3, 1.2, 100.1]);
}

#[test]
fn arithmetic_expression_3() {
    let bytecode = get_chunk("(1 + 2) * (5 - 6) / 3;");
    let expected_opcodes = vec![
        CONSTANT, 0, CONSTANT, 1, ADD, CONSTANT, 2, CONSTANT, 3, SUBTRACT, MULTIPLY, CONSTANT, 4,
        DIVIDE, POP, RETURN,
    ];
    assert_eq!(bytecode.code, expected_opcodes);
    assert_number_constants(&bytecode, &[1.0, 2.0, 5.0, 6.0, 3.0]);
}

#[test]
fn arithmetic_expression_4() {
    let bytecode = get_chunk("1 + 2 * 3 - 4 / -5;");
    let expected_opcodes = vec![
        CONSTANT, 0, CONSTANT, 1, CONSTANT, 2, MULTIPLY, ADD, CONSTANT, 3, CONSTANT, 4, NEGATE,
        DIVIDE, SUBTRACT, POP, RETURN,
    ];
    assert_eq!(bytecode.code, expected_opcodes);
    assert_number_constants(&bytecode, &[1.0, 2.0, 3.0, 4.0, 5.0]);
}

#[test]
fn comparison_expression_1() {
    let bytecode = get_chunk("(25 * 8) > -63;");
    let expected_opcodes = vec![
        CONSTANT, 0, CONSTANT, 1, MULTIPLY, CONSTANT, 2, NEGATE, GREATER, POP, RETURN,
    ];
    assert_eq!(bytecode.code, expected_opcodes);
    assert_number_constants(&bytecode, &[25.0, 8.0, 63.0]);
}

#[test]
fn comparison_expression_2() {
    let bytecode = get_chunk("---5 >= --2 * 8 - 50;");
    let expected_opcodes = vec![
        CONSTANT, 0, NEGATE, NEGATE, NEGATE, CONSTANT, 1, NEGATE, NEGATE, CONSTANT, 2, MULTIPLY,
        CONSTANT, 3, SUBTRACT, LESS, NOT, POP, RETURN,
    ];
    assert_eq!(bytecode.code, expected_opcodes);
    assert_number_constants(&bytecode, &[5.0, 2.0, 8.0, 50.0]);
}

#[test]
fn comparison_expression_3() {
    let bytecode = get_chunk("2 - 2 - -2 / 2 < -63;");
    let expected_opcodes = vec![
        CONSTANT, 0, CONSTANT, 1, SUBTRACT, CONSTANT, 2, NEGATE, CONSTANT, 3, DIVIDE, SUBTRACT,
        CONSTANT, 4, NEGATE, LESS, POP, RETURN,
    ];
    assert_eq!(bytecode.code, expected_opcodes);
    assert_number_constants(&bytecode, &[2.0, 2.0, 2.0, 2.0, 63.0]);
}

#[test]
fn comparison_expression_4() {
    let bytecode = get_chunk("((((0)))) <= 10 * - 5 / 3;");
    let expected_opcodes = vec![
        CONSTANT, 0, CONSTANT, 1, CONSTANT, 2, NEGATE, MULTIPLY, CONSTANT, 3, DIVIDE, GREATER, NOT,
        POP, RETURN,
    ];
    assert_eq!(bytecode.code, expected_opcodes);
    assert_number_constants(&bytecode, &[0.0, 10.0, 5.0, 3.0]);
}

#[test]
fn equality_expression_1() {
    let bytecode = get_chunk("0.5 * 10 - 3 < 5 == 50 >= 10;");
    let expected_opcodes = vec![
        CONSTANT, 0, CONSTANT, 1, MULTIPLY, CONSTANT, 2, SUBTRACT, CONSTANT, 3, LESS, CONSTANT, 4,
        CONSTANT, 5, LESS, NOT, EQUAL, POP, RETURN,
    ];
    assert_eq!(bytecode.code, expected_opcodes);
    assert_number_constants(&bytecode, &[0.5, 10.0, 3.0, 5.0, 50.0, 10.0]);
}

#[test]
fn equality_expression_2() {
    let bytecode = get_chunk("(0 > 10 == true) != (50 >= 10 == true);");
    let expected_opcodes = vec![
        CONSTANT, 0, CONSTANT, 1, GREATER, TRUE, EQUAL, CONSTANT, 2, CONSTANT, 3, LESS, NOT, TRUE,
        EQUAL, EQUAL, NOT, POP, RETURN,
    ];
    assert_eq!(bytecode.code, expected_opcodes);
    assert_number_constants(&bytecode, &[0.0, 10.0, 50.0, 10.0]);
}
