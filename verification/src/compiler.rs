//! The single-pass compiler: a Pratt parser that consumes tokens and emits
//! bytecode directly into a [`Chunk`] — no intermediate syntax tree.
//!
//! Grammar accepted (reserved statements fail with `Unimplemented`):
//! ```text
//! program      → declaration* EOF
//! declaration  → varDecl | statement
//! varDecl      → "var" IDENTIFIER ( "=" expression )? ";"
//! statement    → exprStmt | printStmt | block
//! block        → "{" declaration* "}"
//! printStmt    → "print" expression ";"
//! exprStmt     → expression ";"
//! expression   → assignment
//! ```
//! with the usual Pratt precedence climb for the operators. Binary operators
//! parse their right operand one binding power above their own, which makes
//! them left-associative; `!=`, `>=` and `<=` compile to the complementary
//! comparison followed by `NOT`.
//!
//! On an error the compiler records a diagnostic, synchronizes to the next
//! statement boundary, and keeps going; the first diagnostic decides the
//! overall result. The chunk is always finalized with a trailing `RETURN`
//! and stays well-formed (`Chunk::wf`), so every compiled program is
//! decodable and its line map accounts for every code byte.
//!
//! Compilation is pinned by a specification-level compiler: the `c_*`
//! functions below give the meaning of each parse function as a pure
//! transformation of a [`CompState`], and `compile` is proved to produce
//! exactly [`c_program`]'s outcome. Together with the lexer's stream
//! relation (`lexes_to_filtered`, given by [`Compiler::new`]'s contract),
//! the emitted chunk and the result are determined by the source text.

use crate::bytecode::opcodes;
use crate::bytecode::code_extends;
use crate::bytecode::constant_instr;
use crate::bytecode::lemma_objects_view_push;
use crate::bytecode::objects_view;
use crate::bytecode::rle_push;
use crate::runtime_val::RuntimeValue;
use crate::bytecode::Chunk;
use crate::lexer::classify;
use crate::num::bits_of_decimal;
use crate::lexer::lex_filtered;
use crate::lexer::lexes_to_filtered;
use crate::token::{Token, TokenType};
use vstd::prelude::*;

verus! {

/// Compile-time failures. Lexing errors surface here as `LexError`;
/// reserved statements (classes, functions, control flow) fail with
/// `Unimplemented`.
#[derive(Debug, Clone, Copy, PartialEq, Eq, Structural)]
pub enum CompileErr {
    ExpectedDeclOrStmt,
    ExpectedExpr,
    ExpectedIdentifier,
    UnexpectedToken,
    DoubleParse,
    LexError,
    InvalidAssignmentTarget,
    UnclosedBlock,
    TooManyConstants,
    Unimplemented,
}

type CompileResult = Result<(), CompileErr>;

/// A local variable slot: its name and the scope depth it was declared at.
/// Slot tracking is reserved; declarations compile to globals in this core.
pub struct Local<'n> {
    pub name: &'n str,
    pub depth: usize,
}

impl<'n> Local<'n> {
    pub fn new(name: &'n str, depth: usize) -> (l: Local<'n>)
        ensures
            l.name == name,
            l.depth == depth,
    {
        Local { name, depth }
    }
}

// Pratt binding powers, low to high. Only the infix binding power is stored
// (by `precedence_rule`); prefix parsing always starts at `PREC_ASSIGNMENT`
// or `PREC_UNARY`.
pub const PREC_NONE: u8 = 0;

pub const PREC_ASSIGNMENT: u8 = 1;

pub const PREC_OR: u8 = 2;

pub const PREC_AND: u8 = 3;

pub const PREC_EQUALITY: u8 = 4;

pub const PREC_COMPARISON: u8 = 5;

pub const PREC_TERM: u8 = 6;

pub const PREC_FACTOR: u8 = 7;

pub const PREC_UNARY: u8 = 8;

pub const PREC_CALL: u8 = 9;

pub const PREC_PRIMARY: u8 = 10;

/// The infix binding power of a token kind; `PREC_NONE` for non-operators.
pub open spec fn precedence_of(typ: TokenType) -> u8 {
    match typ {
        TokenType::Minus | TokenType::Plus => PREC_TERM,
        TokenType::Slash | TokenType::Star => PREC_FACTOR,
        TokenType::BangEqual | TokenType::EqualEqual => PREC_EQUALITY,
        TokenType::Greater | TokenType::GreaterEqual | TokenType::Less
            | TokenType::LessEqual => PREC_COMPARISON,
        _ => PREC_NONE,
    }
}

/// The opcode tail a binary operator compiles to: its own opcode, or the
/// complementary comparison followed by `NOT` for `!=`, `>=` and `<=`.
pub open spec fn binary_tail(typ: TokenType) -> Seq<u8> {
    match typ {
        TokenType::Plus => seq![opcodes::ADD],
        TokenType::Minus => seq![opcodes::SUBTRACT],
        TokenType::Star => seq![opcodes::MULTIPLY],
        TokenType::Slash => seq![opcodes::DIVIDE],
        TokenType::EqualEqual => seq![opcodes::EQUAL],
        TokenType::BangEqual => seq![opcodes::EQUAL, opcodes::NOT],
        TokenType::Greater => seq![opcodes::GREATER],
        TokenType::GreaterEqual => seq![opcodes::LESS, opcodes::NOT],
        TokenType::Less => seq![opcodes::LESS],
        TokenType::LessEqual => seq![opcodes::GREATER, opcodes::NOT],
        _ => seq![],
    }
}

/// The token kinds that may start an expression.
pub open spec fn starts_expr(typ: TokenType) -> bool {
    match typ {
        TokenType::Bang | TokenType::Minus | TokenType::True | TokenType::False | TokenType::Nil
            | TokenType::This | TokenType::Number | TokenType::String | TokenType::Identifier
            | TokenType::LeftParen | TokenType::Super => true,
        _ => false,
    }
}

/// The multiplicative operators bind tighter than the additive ones, and
/// both groups tighter than comparisons and equality. Together with the
/// parse loop (which continues while the next operator's binding power is
/// at least the current one) and `binary` (which parses its right operand
/// one power above its own, so equal-power operators associate to the
/// left), this fixes the precedence and associativity the emitted bytecode
/// exhibits.
pub proof fn lemma_operator_binding_powers()
    ensures
        precedence_of(TokenType::Star) == precedence_of(TokenType::Slash),
        precedence_of(TokenType::Plus) == precedence_of(TokenType::Minus),
        precedence_of(TokenType::Star) > precedence_of(TokenType::Plus),
        precedence_of(TokenType::Plus) > precedence_of(TokenType::Greater),
        precedence_of(TokenType::Greater) > precedence_of(TokenType::EqualEqual),
        precedence_of(TokenType::EqualEqual) > PREC_ASSIGNMENT,
{
}

/// The compiler state: the (trivia-filtered) token stream with a one-token
/// cursor, the chunk under construction, the local-slot stack and scope
/// depth, and the diagnostics recorded so far.
pub struct Compiler<'t> {
    tokens: Vec<Token<'t>>,
    idx: usize,
    locals: Vec<Local<'t>>,
    scope_depth: usize,
    pub bytecode: Chunk,
    errors: Vec<(CompileErr, usize)>,
}

impl<'t> Compiler<'t> {
    /// The token stream is well-formed (trivia-free, `Eof`-terminated, each
    /// token's kind matching its lexeme), the cursor is on a token, and the
    /// chunk under construction is well-formed.
    pub closed spec fn wf(self) -> bool {
        &&& self.bytecode.wf()
        &&& self.tokens@.len() >= 1
        &&& self.tokens@.last().typ == TokenType::Eof
        &&& (forall|i: int|
            0 <= i < self.tokens@.len() - 1 ==> (#[trigger] self.tokens@[i].typ)
                != TokenType::Eof)
        &&& (forall|i: int|
            0 <= i < self.tokens@.len() ==> classify(#[trigger] self.tokens@[i].lexeme@) == Some(
                self.tokens@[i].typ,
            ))
        &&& self.idx < self.tokens@.len()
    }

    /// A freshly constructed compiler: cursor at the first token, empty
    /// chunk, no diagnostics, top-level scope.
    pub closed spec fn fresh(self) -> bool {
        &&& self.wf()
        &&& self.idx == 0
        &&& self.errors@.len() == 0
        &&& self.scope_depth == 0
        &&& self.bytecode.code@.len() == 0
        &&& self.bytecode.constants@.len() == 0
    }

    /// The diagnostics recorded so far: `(kind, line)`, in discovery order.
    pub closed spec fn spec_errors(self) -> Seq<(CompileErr, usize)> {
        self.errors@
    }

    /// The chunk under construction, for contracts outside this module.
    pub closed spec fn spec_bytecode(self) -> crate::bytecode::Chunk {
        self.bytecode
    }

    /// The trivia-filtered, `Eof`-terminated token stream.
    pub closed spec fn spec_tokens(self) -> Seq<Token<'t>> {
        self.tokens@
    }

    /// The compiler's observable state, for the specification-level
    /// compiler.
    pub closed spec fn comp_state(self) -> CompState {
        CompState {
            idx: self.idx as int,
            code: self.bytecode.code@,
            consts: self.bytecode.constants@,
            objs: objects_view(self.bytecode.objects@),
            lines: self.bytecode.lines@,
            errors: self.errors@,
        }
    }

    pub fn new(text: &'t str) -> (c: Compiler<'t>)
        requires
            text@.len() < usize::MAX,
        ensures
            c.fresh(),
            lexes_to_filtered(text@, c.spec_tokens()),
    {
        let tokens = lex_filtered(text);
        Compiler {
            tokens,
            idx: 0,
            locals: Vec::new(),
            scope_depth: 0,
            bytecode: Chunk::new(),
            errors: Vec::new(),
        }
    }

    /// Hand the compiled chunk over, for the virtual machine to own.
    pub fn into_chunk(self) -> (c: Chunk)
        ensures
            c == self.spec_bytecode(),
    {
        self.bytecode
    }

    /// The diagnostics recorded so far: `(kind, line)`, in discovery order.
    pub fn diagnostics(&self) -> (r: &Vec<(CompileErr, usize)>)
        ensures
            r@ == self.spec_errors(),
    {
        &self.errors
    }

    /// Record a diagnostic and hand the kind back, for `return Err(...)`.
    fn fail(&mut self, e: CompileErr, line: usize) -> (r: CompileErr)
        ensures
            r == e,
            final(self).errors@ == old(self).errors@.push((e, line)),
            final(self).comp_state() == (CompState {
                errors: old(self).comp_state().errors.push((e, line)),
                ..old(self).comp_state()
            }),
            c_fail(old(self).comp_state(), e, line) == (CompOutcome {
                st: final(self).comp_state(),
                result: Err::<(), CompileErr>(e),
            }),
            final(self).tokens == old(self).tokens,
            final(self).idx == old(self).idx,
            final(self).bytecode == old(self).bytecode,
            final(self).scope_depth == old(self).scope_depth,
    {
        self.errors.push((e, line));
        e
    }

    /// The token under the cursor, without consuming it.
    fn peek_token(&self) -> (t: Token<'t>)
        requires
            self.wf(),
        ensures
            t == self.tokens@[self.idx as int],
    {
        self.tokens[self.idx]
    }

    /// Consume and return the token under the cursor. `Eof` is never
    /// consumed (it is handed out again and again); an in-band lexing error
    /// token is consumed and surfaced as `CompileErr::LexError`.
    fn next_token(&mut self) -> (r: Result<Token<'t>, CompileErr>)
        requires
            old(self).wf(),
        ensures
            final(self).wf(),
            final(self).tokens == old(self).tokens,
            final(self).bytecode == old(self).bytecode,
            final(self).scope_depth == old(self).scope_depth,
            old(self).idx <= final(self).idx,
            (r is Err) <==> (old(self).tokens@[old(self).idx as int].typ is Error),
            match r {
                Ok(t) => {
                    &&& t == old(self).tokens@[old(self).idx as int]
                    &&& !(t.typ is Error)
                    &&& classify(t.lexeme@) == Some(t.typ)
                    &&& final(self).errors == old(self).errors
                    &&& (t.typ == TokenType::Eof ==> final(self).idx == old(self).idx)
                    &&& (t.typ != TokenType::Eof ==> final(self).idx == old(self).idx + 1)
                    &&& final(self).comp_state() == (if t.typ == TokenType::Eof {
                        old(self).comp_state()
                    } else {
                        c_advance(old(self).comp_state())
                    })
                },
                Err(e) => {
                    &&& e == CompileErr::LexError
                    &&& final(self).idx == old(self).idx + 1
                    &&& final(self).errors@ == old(self).errors@.push(
                        (e, old(self).tokens@[old(self).idx as int].line),
                    )
                    &&& c_fail(
                        c_advance(old(self).comp_state()),
                        CompileErr::LexError,
                        old(self).tokens@[old(self).idx as int].line,
                    ) == (CompOutcome {
                        st: final(self).comp_state(),
                        result: Err::<(), CompileErr>(e),
                    })
                },
            },
    {
        let n = self.tokens.len();
        let t = self.tokens[self.idx];
        match t.typ {
            TokenType::Eof => Ok(t),
            TokenType::Error(_) => {
                self.idx = self.idx + 1;
                let e = self.fail(CompileErr::LexError, t.line);
                Err(e)
            },
            _ => {
                self.idx = self.idx + 1;
                Ok(t)
            },
        }
    }

    /// Consume one token, demanding the given kind; a mismatch is recorded
    /// as `err` at the offending token's line.
    fn expect_token(&mut self, expected: TokenType, err: CompileErr) -> (r: Result<
        Token<'t>,
        CompileErr,
    >)
        requires
            old(self).wf(),
            expected != TokenType::Eof,
            !(expected is Error),
        ensures
            final(self).wf(),
            final(self).tokens == old(self).tokens,
            final(self).bytecode == old(self).bytecode,
            final(self).scope_depth == old(self).scope_depth,
            old(self).idx <= final(self).idx,
            match r {
                Ok(t) => {
                    &&& t == old(self).tokens@[old(self).idx as int]
                    &&& t.typ == expected
                    &&& classify(t.lexeme@) == Some(t.typ)
                    &&& final(self).idx == old(self).idx + 1
                    &&& final(self).errors == old(self).errors
                    &&& c_expect(old(self).spec_tokens(), old(self).comp_state(), expected, err)
                        == (CompOutcome {
                        st: final(self).comp_state(),
                        result: Ok::<(), CompileErr>(()),
                    })
                },
                Err(e) => {
                    &&& final(self).errors@.len() == old(self).errors@.len() + 1
                    &&& final(self).errors@[old(self).errors@.len() as int].0 == e
                    &&& (forall|i: int|
                        0 <= i < old(self).errors@.len() ==> #[trigger] final(self).errors@[i]
                            == old(self).errors@[i])
                    &&& c_expect(old(self).spec_tokens(), old(self).comp_state(), expected, err)
                        == (CompOutcome {
                        st: final(self).comp_state(),
                        result: Err::<(), CompileErr>(e),
                    })
                },
            },
    {
        let t = match self.next_token() {
            Ok(t) => t,
            Err(e) => {
                return Err(e);
            },
        };
        if !token_type_eq(t.typ, expected) {
            let e = self.fail(err, t.line);
            return Err(e);
        }
        Ok(t)
    }

    /// Compile the whole program: declarations until `Eof`, then a trailing
    /// `RETURN` so the chunk is always decodable to its end. All
    /// diagnostics are collected; the result is the first error, if any.
    #[verifier::rlimit(30)]
    pub fn compile(&mut self) -> (r: CompileResult)
        requires
            old(self).fresh(),
        ensures
            final(self).wf(),
            final(self).spec_bytecode().wf(),
            final(self).spec_bytecode().code@.len() > 0,
            final(self).spec_bytecode().code@.last() == opcodes::RETURN,
            code_extends(old(self).spec_bytecode(), final(self).spec_bytecode()),
            match r {
                Ok(()) => final(self).spec_errors().len() == 0,
                Err(e) => {
                    &&& final(self).spec_errors().len() > 0
                    &&& final(self).spec_errors()[0].0 == e
                },
            },
            c_program(old(self).spec_tokens(), old(self).comp_state()) == (CompOutcome {
                st: final(self).comp_state(),
                result: r,
            }),
    {
        let mut result: CompileResult = Ok(());
        loop
            invariant
                self.wf(),
                self.scope_depth == 0,
                self.tokens == old(self).tokens,
                code_extends(old(self).bytecode, self.bytecode),
                match result {
                    Ok(()) => self.errors@.len() == 0,
                    Err(e) => self.errors@.len() > 0 && self.errors@[0].0 == e,
                },
                c_program(old(self).spec_tokens(), old(self).comp_state()) == c_program(
                    old(self).spec_tokens(),
                    self.comp_state(),
                ),
            ensures
                self.wf(),
                code_extends(old(self).bytecode, self.bytecode),
                match result {
                    Ok(()) => self.errors@.len() == 0,
                    Err(e) => self.errors@.len() > 0 && self.errors@[0].0 == e,
                },
                c_program(old(self).spec_tokens(), old(self).comp_state()) == c_finish(
                    self.comp_state(),
                ),
            decreases self.tokens@.len() - self.idx,
        {
            let ghost prev = self.comp_state();
            let ghost idx0 = self.idx;
            match self.next_token() {
                Err(e) => {
                    if result.is_ok() {
                        result = Err(e);
                    }
                    self.synchronize();
                    proof {
                        assert(c_program(old(self).spec_tokens(), prev) == c_program(
                            old(self).spec_tokens(),
                            self.comp_state(),
                        ));
                    }
                },
                Ok(tok) => {
                    if token_type_eq(tok.typ, TokenType::Eof) {
                        proof {
                            assert(c_program(old(self).spec_tokens(), prev) == c_finish(
                                self.comp_state(),
                            ));
                        }
                        break ;
                    }
                    match self.declaration(&tok) {
                        Ok(()) => {
                            proof {
                                assert(c_program(old(self).spec_tokens(), prev) == c_program(
                                    old(self).spec_tokens(),
                                    self.comp_state(),
                                ));
                            }
                        },
                        Err(e) => {
                            if result.is_ok() {
                                result = Err(e);
                            }
                            self.synchronize();
                            proof {
                                assert(c_program(old(self).spec_tokens(), prev) == c_program(
                                    old(self).spec_tokens(),
                                    self.comp_state(),
                                ));
                            }
                        },
                    }
                },
            }
            proof {
                assert(self.idx > idx0);
            }
        }
        let ghost before_return = self.comp_state();
        self.bytecode.emit_opcode(opcodes::RETURN, 0);
        proof {
            assert(self.comp_state() =~~= c_emit_op(before_return, opcodes::RETURN, 0));
            let o = c_program(old(self).spec_tokens(), old(self).comp_state());
            assert(o == c_finish(before_return));
            assert(o.st == self.comp_state());
            assert(before_return.errors == self.errors@);
            if result is Ok {
                assert(before_return.errors.len() == 0);
                assert(o.result == Ok::<(), CompileErr>(()));
                assert(result == Ok::<(), CompileErr>(result->Ok_0));
                assert(result->Ok_0 == ());
            } else {
                let e = result->Err_0;
                assert(before_return.errors.len() > 0);
                assert(before_return.errors[0].0 == e);
                assert(o.result == Err::<(), CompileErr>(e));
                assert(result == Err::<(), CompileErr>(e));
            }
            assert(o.result == result);
        }
        result
    }

    /// Skip tokens until a statement boundary: a declaration-starting
    /// keyword or `Eof`.
    fn synchronize(&mut self)
        requires
            old(self).wf(),
        ensures
            final(self).wf(),
            final(self).tokens == old(self).tokens,
            final(self).bytecode == old(self).bytecode,
            final(self).scope_depth == old(self).scope_depth,
            final(self).errors@ == old(self).errors@,
            old(self).idx <= final(self).idx,
            final(self).comp_state() == c_synchronize(
                old(self).spec_tokens(),
                old(self).comp_state(),
            ),
    {
        loop
            invariant
                self.wf(),
                self.tokens == old(self).tokens,
                self.bytecode == old(self).bytecode,
                self.scope_depth == old(self).scope_depth,
                self.errors@ == old(self).errors@,
                old(self).idx <= self.idx,
                c_synchronize(old(self).spec_tokens(), old(self).comp_state()) == c_synchronize(
                    self.spec_tokens(),
                    self.comp_state(),
                ),
            decreases self.tokens@.len() - self.idx,
        {
            let t = self.peek_token();
            match t.typ {
                TokenType::Eof | TokenType::Class | TokenType::Fun | TokenType::Var
                    | TokenType::For | TokenType::If | TokenType::While | TokenType::Print
                    | TokenType::Return => {
                    return ;
                },
                _ => {
                    let n = self.tokens.len();
                    self.idx = self.idx + 1;
                },
            }
        }
    }

    /// `declaration → varDecl | statement`; classes and functions are
    /// reserved.
    fn declaration(&mut self, tok: &Token<'t>) -> (r: CompileResult)
        requires
            old(self).wf(),
            old(self).scope_depth < old(self).idx,
            classify(tok.lexeme@) == Some(tok.typ),
            tok.typ != TokenType::Eof,
        ensures
            final(self).wf(),
            final(self).tokens == old(self).tokens,
            final(self).scope_depth == old(self).scope_depth,
            old(self).idx <= final(self).idx,
            parse_errors_post(*old(self), *final(self), r),
            code_extends(old(self).bytecode, final(self).bytecode),
            c_declaration(old(self).spec_tokens(), old(self).comp_state(), *tok)
                == (CompOutcome { st: final(self).comp_state(), result: r }),
        decreases old(self).tokens@.len() - old(self).idx, 12int,
    {
        match tok.typ {
            TokenType::Class => self.class_declaration(tok.line),
            TokenType::Fun => self.function_declaration(tok.line),
            TokenType::Var => self.variable_declaration(),
            _ => self.statement(tok),
        }
    }

    /// Reserved: `class` declarations are recognized but not implemented.
    fn class_declaration(&mut self, line: usize) -> (r: CompileResult)
        requires
            old(self).wf(),
        ensures
            final(self).wf(),
            final(self).tokens == old(self).tokens,
            final(self).scope_depth == old(self).scope_depth,
            old(self).idx <= final(self).idx,
            parse_errors_post(*old(self), *final(self), r),
            code_extends(old(self).bytecode, final(self).bytecode),
            r is Err,
            c_fail(old(self).comp_state(), CompileErr::Unimplemented, line) == (CompOutcome {
                st: final(self).comp_state(),
                result: r,
            }),
    {
        Err(self.fail(CompileErr::Unimplemented, line))
    }

    /// Reserved: `fun` declarations are recognized but not implemented.
    fn function_declaration(&mut self, line: usize) -> (r: CompileResult)
        requires
            old(self).wf(),
        ensures
            final(self).wf(),
            final(self).tokens == old(self).tokens,
            final(self).scope_depth == old(self).scope_depth,
            old(self).idx <= final(self).idx,
            parse_errors_post(*old(self), *final(self), r),
            code_extends(old(self).bytecode, final(self).bytecode),
            r is Err,
            c_fail(old(self).comp_state(), CompileErr::Unimplemented, line) == (CompOutcome {
                st: final(self).comp_state(),
                result: r,
            }),
    {
        Err(self.fail(CompileErr::Unimplemented, line))
    }

    /// `varDecl → "var" IDENTIFIER ( "=" expression )? ";"` — compiles the
    /// initializer (or `NIL`), then `DEFINE_GLOBAL` carrying the name.
    fn variable_declaration(&mut self) -> (r: CompileResult)
        requires
            old(self).wf(),
        ensures
            final(self).wf(),
            final(self).tokens == old(self).tokens,
            final(self).scope_depth == old(self).scope_depth,
            old(self).idx <= final(self).idx,
            parse_errors_post(*old(self), *final(self), r),
            code_extends(old(self).bytecode, final(self).bytecode),
            r is Ok ==> final(self).bytecode.code@.len() >= 2
                && final(self).bytecode.code@[final(self).bytecode.code@.len() - 2]
                == opcodes::DEFINE_GLOBAL,
            c_variable_declaration(old(self).spec_tokens(), old(self).comp_state())
                == (CompOutcome { st: final(self).comp_state(), result: r }),
        decreases old(self).tokens@.len() - old(self).idx, 11int,
    {
        let ident_tok = match self.expect_token(
            TokenType::Identifier,
            CompileErr::ExpectedIdentifier,
        ) {
            Ok(t) => t,
            Err(e) => {
                return Err(e);
            },
        };
        let peeked = self.peek_token();
        if token_type_eq(peeked.typ, TokenType::Equal) {
            let _eq = self.next_token();
            let expr_tok = match self.next_token() {
                Ok(t) => t,
                Err(e) => {
                    return Err(e);
                },
            };
            match self.expression(&expr_tok) {
                Ok(()) => {},
                Err(e) => {
                    return Err(e);
                },
            }
        } else {
            self.bytecode.emit_opcode(opcodes::NIL, ident_tok.line);
        }
        match self.expect_token(TokenType::Semicolon, CompileErr::UnexpectedToken) {
            Ok(_) => {},
            Err(e) => {
                return Err(e);
            },
        }
        let ghost pre_objs = self.bytecode.objects@;
        let r2 = self.bytecode.emit_declare_global(ident_tok.lexeme, ident_tok.line);
        proof {
            if r2 is Ok {
                lemma_objects_view_push(pre_objs, self.bytecode.objects@, ident_tok.lexeme@);
            }
        }
        match r2 {
            Ok(()) => Ok(()),
            Err(e) => Err(self.fail(e, ident_tok.line)),
        }
    }

    /// `statement → printStmt | block | exprStmt`; control flow and
    /// `return` are reserved.
    fn statement(&mut self, tok: &Token<'t>) -> (r: CompileResult)
        requires
            old(self).wf(),
            old(self).scope_depth < old(self).idx,
            classify(tok.lexeme@) == Some(tok.typ),
            tok.typ != TokenType::Eof,
        ensures
            final(self).wf(),
            final(self).tokens == old(self).tokens,
            final(self).scope_depth == old(self).scope_depth,
            old(self).idx <= final(self).idx,
            parse_errors_post(*old(self), *final(self), r),
            code_extends(old(self).bytecode, final(self).bytecode),
            c_statement(old(self).spec_tokens(), old(self).comp_state(), *tok)
                == (CompOutcome { st: final(self).comp_state(), result: r }),
        decreases old(self).tokens@.len() - old(self).idx, 11int,
    {
        match tok.typ {
            TokenType::For => self.for_stmt(tok.line),
            TokenType::If => self.if_stmt(tok.line),
            TokenType::Print => self.print_stmt(tok),
            TokenType::Return => self.return_stmt(tok.line),
            TokenType::While => self.while_stmt(tok.line),
            TokenType::LeftBrace => {
                self.scope_depth = self.scope_depth + 1;
                let r = self.block_stmt();
                self.scope_depth = self.scope_depth - 1;
                r
            },
            _ => {
                if Compiler::is_expr_start(tok.typ) {
                    self.expr_stmt(tok)
                } else {
                    Err(self.fail(CompileErr::ExpectedDeclOrStmt, tok.line))
                }
            },
        }
    }

    /// Reserved: `for` loops are recognized but not implemented.
    fn for_stmt(&mut self, line: usize) -> (r: CompileResult)
        requires
            old(self).wf(),
        ensures
            final(self).wf(),
            final(self).tokens == old(self).tokens,
            final(self).scope_depth == old(self).scope_depth,
            old(self).idx <= final(self).idx,
            parse_errors_post(*old(self), *final(self), r),
            code_extends(old(self).bytecode, final(self).bytecode),
            r is Err,
            c_fail(old(self).comp_state(), CompileErr::Unimplemented, line) == (CompOutcome {
                st: final(self).comp_state(),
                result: r,
            }),
    {
        Err(self.fail(CompileErr::Unimplemented, line))
    }

    /// Reserved: `if` statements are recognized but not implemented.
    fn if_stmt(&mut self, line: usize) -> (r: CompileResult)
        requires
            old(self).wf(),
        ensures
            final(self).wf(),
            final(self).tokens == old(self).tokens,
            final(self).scope_depth == old(self).scope_depth,
            old(self).idx <= final(self).idx,
            parse_errors_post(*old(self), *final(self), r),
            code_extends(old(self).bytecode, final(self).bytecode),
            r is Err,
            c_fail(old(self).comp_state(), CompileErr::Unimplemented, line) == (CompOutcome {
                st: final(self).comp_state(),
                result: r,
            }),
    {
        Err(self.fail(CompileErr::Unimplemented, line))
    }

    /// Reserved: `return` statements are recognized but not implemented.
    fn return_stmt(&mut self, line: usize) -> (r: CompileResult)
        requires
            old(self).wf(),
        ensures
            final(self).wf(),
            final(self).tokens == old(self).tokens,
            final(self).scope_depth == old(self).scope_depth,
            old(self).idx <= final(self).idx,
            parse_errors_post(*old(self), *final(self), r),
            code_extends(old(self).bytecode, final(self).bytecode),
            r is Err,
            c_fail(old(self).comp_state(), CompileErr::Unimplemented, line) == (CompOutcome {
                st: final(self).comp_state(),
                result: r,
            }),
    {
        Err(self.fail(CompileErr::Unimplemented, line))
    }

    /// Reserved: `while` loops are recognized but not implemented.
    fn while_stmt(&mut self, line: usize) -> (r: CompileResult)
        requires
            old(self).wf(),
        ensures
            final(self).wf(),
            final(self).tokens == old(self).tokens,
            final(self).scope_depth == old(self).scope_depth,
            old(self).idx <= final(self).idx,
            parse_errors_post(*old(self), *final(self), r),
            code_extends(old(self).bytecode, final(self).bytecode),
            r is Err,
            c_fail(old(self).comp_state(), CompileErr::Unimplemented, line) == (CompOutcome {
                st: final(self).comp_state(),
                result: r,
            }),
    {
        Err(self.fail(CompileErr::Unimplemented, line))
    }

    /// `printStmt → "print" expression ";"` — compiles the expression, then
    /// `PRINT`.
    fn print_stmt(&mut self, print_tok: &Token<'t>) -> (r: CompileResult)
        requires
            old(self).wf(),
        ensures
            final(self).wf(),
            final(self).tokens == old(self).tokens,
            final(self).scope_depth == old(self).scope_depth,
            old(self).idx <= final(self).idx,
            parse_errors_post(*old(self), *final(self), r),
            code_extends(old(self).bytecode, final(self).bytecode),
            r is Ok ==> final(self).bytecode.code@.len() > old(self).bytecode.code@.len()
                && final(self).bytecode.code@.last() == opcodes::PRINT,
            c_print_stmt(old(self).spec_tokens(), old(self).comp_state(), print_tok.line)
                == (CompOutcome { st: final(self).comp_state(), result: r }),
        decreases old(self).tokens@.len() - old(self).idx, 10int,
    {
        let first_expr_tok = match self.next_token() {
            Ok(t) => t,
            Err(e) => {
                return Err(e);
            },
        };
        match self.expression(&first_expr_tok) {
            Ok(()) => {},
            Err(e) => {
                return Err(e);
            },
        }
        match self.expect_token(TokenType::Semicolon, CompileErr::UnexpectedToken) {
            Ok(_) => {},
            Err(e) => {
                return Err(e);
            },
        }
        self.bytecode.emit_opcode(opcodes::PRINT, print_tok.line);
        Ok(())
    }

    /// `exprStmt → expression ";"` — compiles the expression, then `POP`
    /// to discard its value.
    fn expr_stmt(&mut self, tok: &Token<'t>) -> (r: CompileResult)
        requires
            old(self).wf(),
            classify(tok.lexeme@) == Some(tok.typ),
        ensures
            final(self).wf(),
            final(self).tokens == old(self).tokens,
            final(self).scope_depth == old(self).scope_depth,
            old(self).idx <= final(self).idx,
            parse_errors_post(*old(self), *final(self), r),
            code_extends(old(self).bytecode, final(self).bytecode),
            r is Ok ==> final(self).bytecode.code@.len() > old(self).bytecode.code@.len()
                && final(self).bytecode.code@.last() == opcodes::POP,
            c_expr_stmt(old(self).spec_tokens(), old(self).comp_state(), *tok)
                == (CompOutcome { st: final(self).comp_state(), result: r }),
        decreases old(self).tokens@.len() - old(self).idx, 10int,
    {
        match self.expression(tok) {
            Ok(()) => {},
            Err(e) => {
                return Err(e);
            },
        }
        match self.expect_token(TokenType::Semicolon, CompileErr::UnexpectedToken) {
            Ok(_) => {},
            Err(e) => {
                return Err(e);
            },
        }
        self.bytecode.emit_opcode(opcodes::POP, tok.line);
        Ok(())
    }

    /// `block → "{" declaration* "}"`; hitting `Eof` first is an unclosed
    /// block.
    fn block_stmt(&mut self) -> (r: CompileResult)
        requires
            old(self).wf(),
            old(self).scope_depth <= old(self).idx,
        ensures
            final(self).wf(),
            final(self).tokens == old(self).tokens,
            final(self).scope_depth == old(self).scope_depth,
            old(self).idx <= final(self).idx,
            parse_errors_post(*old(self), *final(self), r),
            code_extends(old(self).bytecode, final(self).bytecode),
            c_block_stmt(old(self).spec_tokens(), old(self).comp_state())
                == (CompOutcome { st: final(self).comp_state(), result: r }),
        decreases old(self).tokens@.len() - old(self).idx, 10int,
    {
        loop
            invariant
                self.wf(),
                self.tokens == old(self).tokens,
                self.scope_depth == old(self).scope_depth,
                self.scope_depth <= self.idx,
                old(self).idx <= self.idx,
                self.errors@ == old(self).errors@,
                code_extends(old(self).bytecode, self.bytecode),
                c_block_stmt(old(self).spec_tokens(), old(self).comp_state()) == c_block_stmt(
                    old(self).spec_tokens(),
                    self.comp_state(),
                ),
            decreases self.tokens@.len() - self.idx,
        {
            let ghost prev = self.comp_state();
            let tok = match self.next_token() {
                Ok(t) => t,
                Err(e) => {
                    return Err(e);
                },
            };
            match tok.typ {
                TokenType::RightBrace => {
                    return Ok(());
                },
                TokenType::Eof => {
                    return Err(self.fail(CompileErr::UnclosedBlock, tok.line));
                },
                _ => {
                    match self.declaration(&tok) {
                        Ok(()) => {
                            proof {
                                assert(c_block_stmt(old(self).spec_tokens(), prev)
                                    == c_block_stmt(
                                    old(self).spec_tokens(),
                                    self.comp_state(),
                                ));
                            }
                        },
                        Err(e) => {
                            return Err(e);
                        },
                    }
                },
            }
        }
    }

    /// `expression → assignment`: a full Pratt climb from the lowest
    /// binding power. A token that cannot start an expression is an
    /// `ExpectedExpr` error at its line.
    fn expression(&mut self, tok: &Token<'t>) -> (r: CompileResult)
        requires
            old(self).wf(),
            classify(tok.lexeme@) == Some(tok.typ),
        ensures
            final(self).wf(),
            final(self).tokens == old(self).tokens,
            final(self).scope_depth == old(self).scope_depth,
            old(self).idx <= final(self).idx,
            parse_errors_post(*old(self), *final(self), r),
            code_extends(old(self).bytecode, final(self).bytecode),
            r is Ok ==> final(self).bytecode.code@.len() > old(self).bytecode.code@.len(),
            c_expression(old(self).spec_tokens(), old(self).comp_state(), *tok)
                == (CompOutcome { st: final(self).comp_state(), result: r }),
        decreases old(self).tokens@.len() - old(self).idx, 9int,
    {
        if Compiler::is_expr_start(tok.typ) {
            self.parse_precedence(PREC_ASSIGNMENT, tok)
        } else {
            Err(self.fail(CompileErr::ExpectedExpr, tok.line))
        }
    }

    /// The Pratt climb: dispatch the consumed token's prefix rule, then as
    /// long as the next token's infix binding power is at least `prec`,
    /// consume it and dispatch its infix rule. A trailing `=` here means
    /// the left-hand side was not an assignable target.
    fn parse_precedence(&mut self, prec: u8, tok: &Token<'t>) -> (r: CompileResult)
        requires
            old(self).wf(),
            1 <= prec,
            starts_expr(tok.typ),
            classify(tok.lexeme@) == Some(tok.typ),
        ensures
            final(self).wf(),
            final(self).tokens == old(self).tokens,
            final(self).scope_depth == old(self).scope_depth,
            old(self).idx <= final(self).idx,
            parse_errors_post(*old(self), *final(self), r),
            code_extends(old(self).bytecode, final(self).bytecode),
            r is Ok ==> final(self).bytecode.code@.len() > old(self).bytecode.code@.len(),
            c_parse_precedence(old(self).spec_tokens(), old(self).comp_state(), prec, *tok)
                == (CompOutcome { st: final(self).comp_state(), result: r }),
        decreases old(self).tokens@.len() - old(self).idx, 8int,
    {
        let can_assign = prec <= PREC_ASSIGNMENT;
        match self.prefix_rule(tok, can_assign) {
            Ok(()) => {},
            Err(e) => {
                return Err(e);
            },
        }
        let ghost after_prefix = self.comp_state();
        loop
            invariant
                self.wf(),
                self.tokens == old(self).tokens,
                self.scope_depth == old(self).scope_depth,
                old(self).idx <= self.idx,
                self.errors@ == old(self).errors@,
                code_extends(old(self).bytecode, self.bytecode),
                self.bytecode.code@.len() > old(self).bytecode.code@.len(),
                1 <= prec,
                can_assign == (prec <= PREC_ASSIGNMENT),
                c_prefix_rule(
                    old(self).spec_tokens(),
                    old(self).comp_state(),
                    *tok,
                    can_assign,
                ) == (CompOutcome { st: after_prefix, result: Ok::<(), CompileErr>(()) }),
                old(self).comp_state().idx <= after_prefix.idx <= old(self).spec_tokens().len(),
                c_infix_loop(old(self).spec_tokens(), after_prefix, prec) == c_infix_loop(
                    old(self).spec_tokens(),
                    self.comp_state(),
                    prec,
                ),
            ensures
                self.wf(),
                self.tokens == old(self).tokens,
                self.scope_depth == old(self).scope_depth,
                old(self).idx <= self.idx,
                self.errors@ == old(self).errors@,
                code_extends(old(self).bytecode, self.bytecode),
                self.bytecode.code@.len() > old(self).bytecode.code@.len(),
                old(self).comp_state().idx <= after_prefix.idx <= old(self).spec_tokens().len(),
                c_infix_loop(old(self).spec_tokens(), after_prefix, prec) == (CompOutcome {
                    st: self.comp_state(),
                    result: Ok::<(), CompileErr>(()),
                }),
            decreases self.tokens@.len() - self.idx,
        {
            let ghost prev = self.comp_state();
            let peeked = self.peek_token();
            if prec <= Compiler::precedence_rule(peeked.typ) {
                let t = match self.next_token() {
                    Ok(t) => t,
                    Err(e) => {
                        proof {
                            // an operator token is never a lexing-error token
                            assert(false);
                        }
                        return Err(e);
                    },
                };
                match self.infix_rule(&t) {
                    Ok(()) => {
                        proof {
                            assert(c_infix_loop(old(self).spec_tokens(), prev, prec)
                                == c_infix_loop(
                                old(self).spec_tokens(),
                                self.comp_state(),
                                prec,
                            ));
                        }
                    },
                    Err(e) => {
                        proof {
                            assert(c_infix_loop(old(self).spec_tokens(), prev, prec)
                                == (CompOutcome {
                                st: self.comp_state(),
                                result: Err::<(), CompileErr>(e),
                            }));
                            assert(c_parse_precedence(
                                old(self).spec_tokens(),
                                old(self).comp_state(),
                                prec,
                                *tok,
                            ) == (CompOutcome {
                                st: self.comp_state(),
                                result: Err::<(), CompileErr>(e),
                            }));
                        }
                        return Err(e);
                    },
                }
            } else {
                proof {
                    assert(c_infix_loop(old(self).spec_tokens(), prev, prec) == (CompOutcome {
                        st: prev,
                        result: Ok::<(), CompileErr>(()),
                    }));
                }
                break ;
            }
        }
        if can_assign {
            let peeked = self.peek_token();
            if token_type_eq(peeked.typ, TokenType::Equal) {
                return Err(self.fail(CompileErr::InvalidAssignmentTarget, tok.line));
            }
        }
        Ok(())
    }

    /// `grouping → "(" expression ")"`: emits only the enclosed expression.
    fn grouping(&mut self, paren_tok: &Token<'t>) -> (r: CompileResult)
        requires
            old(self).wf(),
        ensures
            final(self).wf(),
            final(self).tokens == old(self).tokens,
            final(self).scope_depth == old(self).scope_depth,
            old(self).idx <= final(self).idx,
            parse_errors_post(*old(self), *final(self), r),
            code_extends(old(self).bytecode, final(self).bytecode),
            r is Ok ==> final(self).bytecode.code@.len() > old(self).bytecode.code@.len(),
            c_grouping(old(self).spec_tokens(), old(self).comp_state())
                == (CompOutcome { st: final(self).comp_state(), result: r }),
        decreases old(self).tokens@.len() - old(self).idx, 6int,
    {
        let next_tok = match self.next_token() {
            Ok(t) => t,
            Err(e) => {
                return Err(e);
            },
        };
        if !Compiler::is_expr_start(next_tok.typ) {
            return Err(self.fail(CompileErr::ExpectedExpr, next_tok.line));
        }
        match self.parse_precedence(PREC_ASSIGNMENT, &next_tok) {
            Ok(()) => {},
            Err(e) => {
                return Err(e);
            },
        }
        match self.expect_token(TokenType::RightParen, CompileErr::UnexpectedToken) {
            Ok(_) => Ok(()),
            Err(e) => Err(e),
        }
    }

    /// An infix binary operator: parse the right operand one binding power
    /// above the operator's own (left associativity), then emit its opcode;
    /// `!=`, `>=`, `<=` emit the complementary comparison plus `NOT`.
    fn binary(&mut self, tok: &Token<'t>) -> (r: CompileResult)
        requires
            old(self).wf(),
            precedence_of(tok.typ) >= PREC_EQUALITY,
        ensures
            final(self).wf(),
            final(self).tokens == old(self).tokens,
            final(self).scope_depth == old(self).scope_depth,
            old(self).idx <= final(self).idx,
            parse_errors_post(*old(self), *final(self), r),
            code_extends(old(self).bytecode, final(self).bytecode),
            r is Ok ==> final(self).bytecode.code@.len() > old(self).bytecode.code@.len(),
            r is Ok ==> {
                let c = final(self).bytecode.code@;
                let t = binary_tail(tok.typ);
                c.subrange(c.len() - t.len(), c.len() as int) == t
            },
            c_binary(old(self).spec_tokens(), old(self).comp_state(), *tok)
                == (CompOutcome { st: final(self).comp_state(), result: r }),
        decreases old(self).tokens@.len() - old(self).idx, 6int,
    {
        let next_tok = match self.next_token() {
            Ok(t) => t,
            Err(e) => {
                return Err(e);
            },
        };
        if !Compiler::is_expr_start(next_tok.typ) {
            return Err(self.fail(CompileErr::ExpectedExpr, next_tok.line));
        }
        let prec = Compiler::precedence_rule(tok.typ);
        match self.parse_precedence(prec + 1, &next_tok) {
            Ok(()) => {},
            Err(e) => {
                return Err(e);
            },
        }
        match tok.typ {
            TokenType::Plus => self.bytecode.emit_opcode(opcodes::ADD, tok.line),
            TokenType::Minus => self.bytecode.emit_opcode(opcodes::SUBTRACT, tok.line),
            TokenType::Star => self.bytecode.emit_opcode(opcodes::MULTIPLY, tok.line),
            TokenType::Slash => self.bytecode.emit_opcode(opcodes::DIVIDE, tok.line),
            TokenType::BangEqual => {
                self.bytecode.emit_opcode(opcodes::EQUAL, tok.line);
                self.bytecode.emit_opcode(opcodes::NOT, tok.line);
            },
            TokenType::EqualEqual => self.bytecode.emit_opcode(opcodes::EQUAL, tok.line),
            TokenType::Greater => self.bytecode.emit_opcode(opcodes::GREATER, tok.line),
            TokenType::GreaterEqual => {
                self.bytecode.emit_opcode(opcodes::LESS, tok.line);
                self.bytecode.emit_opcode(opcodes::NOT, tok.line);
            },
            TokenType::Less => self.bytecode.emit_opcode(opcodes::LESS, tok.line),
            TokenType::LessEqual => {
                self.bytecode.emit_opcode(opcodes::GREATER, tok.line);
                self.bytecode.emit_opcode(opcodes::NOT, tok.line);
            },
            _ => {
                proof {
                    assert(false);
                }
            },
        }
        proof {
            let c = self.bytecode.code@;
            let t = binary_tail(tok.typ);
            assert(c.subrange(c.len() - t.len(), c.len() as int) =~= t);
        }
        Ok(())
    }

    /// A bare identifier: global read, or — when assignable and followed by
    /// `=` — compile the right-hand side and emit a global store.
    fn variable(&mut self, tok: &Token<'t>, is_assign_target: bool) -> (r: CompileResult)
        requires
            old(self).wf(),
        ensures
            final(self).wf(),
            final(self).tokens == old(self).tokens,
            final(self).scope_depth == old(self).scope_depth,
            old(self).idx <= final(self).idx,
            parse_errors_post(*old(self), *final(self), r),
            code_extends(old(self).bytecode, final(self).bytecode),
            r is Ok ==> final(self).bytecode.code@.len() > old(self).bytecode.code@.len(),
            c_variable(old(self).spec_tokens(), old(self).comp_state(), *tok, is_assign_target)
                == (CompOutcome { st: final(self).comp_state(), result: r }),
        decreases old(self).tokens@.len() - old(self).idx, 6int,
    {
        let peeked = self.peek_token();
        if is_assign_target && token_type_eq(peeked.typ, TokenType::Equal) {
            let _eq = self.next_token();
            let next_tok = match self.next_token() {
                Ok(t) => t,
                Err(e) => {
                    return Err(e);
                },
            };
            match self.expression(&next_tok) {
                Ok(()) => {},
                Err(e) => {
                    return Err(e);
                },
            }
            let ghost pre_objs = self.bytecode.objects@;
            let r2 = self.bytecode.emit_set_global(tok.lexeme, tok.line);
            proof {
                if r2 is Ok {
                    lemma_objects_view_push(pre_objs, self.bytecode.objects@, tok.lexeme@);
                }
            }
            match r2 {
                Ok(()) => Ok(()),
                Err(e) => Err(self.fail(e, tok.line)),
            }
        } else {
            let ghost pre_objs = self.bytecode.objects@;
            let r2 = self.bytecode.emit_get_global(tok.lexeme, tok.line);
            proof {
                if r2 is Ok {
                    lemma_objects_view_push(pre_objs, self.bytecode.objects@, tok.lexeme@);
                }
            }
            match r2 {
                Ok(()) => Ok(()),
                Err(e) => Err(self.fail(e, tok.line)),
            }
        }
    }

    /// Unary `!` or `-`: parse the operand at unary precedence, then emit
    /// `NOT` or `NEGATE`.
    fn unary(&mut self, tok: &Token<'t>) -> (r: CompileResult)
        requires
            old(self).wf(),
            tok.typ == TokenType::Minus || tok.typ == TokenType::Bang,
        ensures
            final(self).wf(),
            final(self).tokens == old(self).tokens,
            final(self).scope_depth == old(self).scope_depth,
            old(self).idx <= final(self).idx,
            parse_errors_post(*old(self), *final(self), r),
            code_extends(old(self).bytecode, final(self).bytecode),
            r is Ok ==> final(self).bytecode.code@.len() > old(self).bytecode.code@.len(),
            r is Ok ==> final(self).bytecode.code@.last() == (if tok.typ == TokenType::Minus {
                opcodes::NEGATE
            } else {
                opcodes::NOT
            }),
            c_unary(old(self).spec_tokens(), old(self).comp_state(), *tok)
                == (CompOutcome { st: final(self).comp_state(), result: r }),
        decreases old(self).tokens@.len() - old(self).idx, 6int,
    {
        let next_tok = match self.next_token() {
            Ok(t) => t,
            Err(e) => {
                return Err(e);
            },
        };
        if !Compiler::is_expr_start(next_tok.typ) {
            return Err(self.fail(CompileErr::ExpectedExpr, next_tok.line));
        }
        match self.parse_precedence(PREC_UNARY, &next_tok) {
            Ok(()) => {},
            Err(e) => {
                return Err(e);
            },
        }
        if token_type_eq(tok.typ, TokenType::Minus) {
            self.bytecode.emit_opcode(opcodes::NEGATE, tok.line);
        } else {
            self.bytecode.emit_opcode(opcodes::NOT, tok.line);
        }
        Ok(())
    }

    /// A numeric literal: parse the lexeme to its binary64 pattern and emit
    /// it as a constant; an unparseable literal is a `DoubleParse` error.
    fn number(&mut self, tok: &Token<'t>) -> (r: CompileResult)
        requires
            old(self).wf(),
        ensures
            final(self).wf(),
            final(self).tokens == old(self).tokens,
            final(self).scope_depth == old(self).scope_depth,
            old(self).idx <= final(self).idx,
            parse_errors_post(*old(self), *final(self), r),
            code_extends(old(self).bytecode, final(self).bytecode),
            r is Ok ==> final(self).bytecode.code@.len() > old(self).bytecode.code@.len(),
            r is Ok ==> {
                &&& bits_of_decimal(tok.lexeme@) is Some
                &&& final(self).bytecode.constants@ == old(self).bytecode.constants@.push(
                    crate::runtime_val::RuntimeValue::Number(
                        bits_of_decimal(tok.lexeme@)->Some_0,
                    ),
                )
                &&& final(self).bytecode.code@ == old(self).bytecode.code@ + constant_instr(
                    old(self).bytecode.constants@.len() as int,
                )
            },
            r == Err::<(), CompileErr>(CompileErr::DoubleParse) ==> bits_of_decimal(tok.lexeme@) is None,
            c_number(old(self).comp_state(), *tok) == (CompOutcome {
                st: final(self).comp_state(),
                result: r,
            }),
    {
        match crate::num::parse_number_bits(tok.lexeme) {
            Some(bits) => {
                match self.bytecode.emit_constant(
                    crate::runtime_val::RuntimeValue::Number(bits),
                    tok.line,
                ) {
                    Ok(()) => Ok(()),
                    Err(e) => Err(self.fail(e, tok.line)),
                }
            },
            None => Err(self.fail(CompileErr::DoubleParse, tok.line)),
        }
    }

    /// `nil`, `true`, `false`: a single zero-operand opcode.
    fn literal(&mut self, tok: &Token<'t>)
        requires
            old(self).wf(),
            tok.typ == TokenType::Nil || tok.typ == TokenType::True || tok.typ
                == TokenType::False,
        ensures
            final(self).wf(),
            final(self).tokens == old(self).tokens,
            final(self).scope_depth == old(self).scope_depth,
            final(self).idx == old(self).idx,
            final(self).errors == old(self).errors,
            code_extends(old(self).bytecode, final(self).bytecode),
            final(self).bytecode.code@ == old(self).bytecode.code@.push(
                match tok.typ {
                    TokenType::Nil => opcodes::NIL,
                    TokenType::True => opcodes::TRUE,
                    _ => opcodes::FALSE,
                },
            ),
            final(self).bytecode.constants == old(self).bytecode.constants,
            final(self).comp_state() == c_literal(old(self).comp_state(), *tok),
    {
        match tok.typ {
            TokenType::Nil => self.bytecode.emit_opcode(opcodes::NIL, tok.line),
            TokenType::True => self.bytecode.emit_opcode(opcodes::TRUE, tok.line),
            TokenType::False => self.bytecode.emit_opcode(opcodes::FALSE, tok.line),
            _ => {
                proof {
                    assert(false);
                }
            },
        }
    }

    /// A string literal: strip the surrounding quotes and emit the body as
    /// a string constant.
    fn string(&mut self, tok: &Token<'t>) -> (r: CompileResult)
        requires
            old(self).wf(),
            classify(tok.lexeme@) == Some(tok.typ),
            tok.typ == TokenType::String,
        ensures
            final(self).wf(),
            final(self).tokens == old(self).tokens,
            final(self).scope_depth == old(self).scope_depth,
            old(self).idx <= final(self).idx,
            parse_errors_post(*old(self), *final(self), r),
            code_extends(old(self).bytecode, final(self).bytecode),
            r is Ok ==> final(self).bytecode.code@.len() > old(self).bytecode.code@.len(),
            r is Ok ==> {
                &&& final(self).bytecode.constants@ == old(self).bytecode.constants@.push(
                    crate::runtime_val::RuntimeValue::String(
                        old(self).bytecode.objects@.len() as usize,
                    ),
                )
                &&& final(self).bytecode.objects@.last().contents@ == tok.lexeme@.subrange(
                    1,
                    tok.lexeme@.len() - 1,
                )
                &&& final(self).bytecode.code@ == old(self).bytecode.code@ + constant_instr(
                    old(self).bytecode.constants@.len() as int,
                )
            },
            c_string(old(self).comp_state(), *tok) == (CompOutcome {
                st: final(self).comp_state(),
                result: r,
            }),
    {
        let lex = tok.lexeme;
        let n = lex.unicode_len();
        let slice = lex.substring_char(1, n - 1);
        let r = self.bytecode.emit_constant_string(slice, tok.line);
        proof {
            lemma_objects_view_push(old(self).bytecode.objects@, self.bytecode.objects@, slice@);
        }
        match r {
            Ok(()) => Ok(()),
            Err(e) => Err(self.fail(e, tok.line)),
        }
    }

    /// The infix binding power of a token kind.
    fn precedence_rule(typ: TokenType) -> (p: u8)
        ensures
            p == precedence_of(typ),
    {
        match typ {
            TokenType::Minus | TokenType::Plus => PREC_TERM,
            TokenType::Slash | TokenType::Star => PREC_FACTOR,
            TokenType::BangEqual | TokenType::EqualEqual => PREC_EQUALITY,
            TokenType::Greater | TokenType::GreaterEqual | TokenType::Less
                | TokenType::LessEqual => PREC_COMPARISON,
            _ => PREC_NONE,
        }
    }

    /// Dispatch the prefix rule of a consumed expression-starting token.
    /// `this` and `super` are reserved.
    fn prefix_rule(&mut self, tok: &Token<'t>, is_assign_target: bool) -> (r: CompileResult)
        requires
            old(self).wf(),
            starts_expr(tok.typ),
            classify(tok.lexeme@) == Some(tok.typ),
        ensures
            final(self).wf(),
            final(self).tokens == old(self).tokens,
            final(self).scope_depth == old(self).scope_depth,
            old(self).idx <= final(self).idx,
            parse_errors_post(*old(self), *final(self), r),
            code_extends(old(self).bytecode, final(self).bytecode),
            r is Ok ==> final(self).bytecode.code@.len() > old(self).bytecode.code@.len(),
            c_prefix_rule(old(self).spec_tokens(), old(self).comp_state(), *tok, is_assign_target)
                == (CompOutcome { st: final(self).comp_state(), result: r }),
        decreases old(self).tokens@.len() - old(self).idx, 7int,
    {
        let r = match tok.typ {
            TokenType::Identifier => self.variable(tok, is_assign_target),
            TokenType::LeftParen => self.grouping(tok),
            TokenType::Number => self.number(tok),
            TokenType::String => self.string(tok),
            TokenType::Minus | TokenType::Bang => self.unary(tok),
            TokenType::Nil | TokenType::False | TokenType::True => {
                self.literal(tok);
                Ok(())
            },
            TokenType::This | TokenType::Super => {
                Err(self.fail(CompileErr::Unimplemented, tok.line))
            },
            _ => {
                proof {
                    assert(false);
                }
                Ok(())
            },
        };
        r
    }

    /// Dispatch the infix rule of a consumed operator token.
    fn infix_rule(&mut self, tok: &Token<'t>) -> (r: CompileResult)
        requires
            old(self).wf(),
            precedence_of(tok.typ) >= 1,
        ensures
            final(self).wf(),
            final(self).tokens == old(self).tokens,
            final(self).scope_depth == old(self).scope_depth,
            old(self).idx <= final(self).idx,
            parse_errors_post(*old(self), *final(self), r),
            code_extends(old(self).bytecode, final(self).bytecode),
            c_infix_rule(old(self).spec_tokens(), old(self).comp_state(), *tok)
                == (CompOutcome { st: final(self).comp_state(), result: r }),
        decreases old(self).tokens@.len() - old(self).idx, 7int,
    {
        match tok.typ {
            TokenType::Minus | TokenType::Plus | TokenType::Slash | TokenType::Star
                | TokenType::BangEqual | TokenType::EqualEqual | TokenType::Greater
                | TokenType::GreaterEqual | TokenType::Less | TokenType::LessEqual => {
                self.binary(tok)
            },
            _ => {
                proof {
                    assert(false);
                }
                Ok(())
            },
        }
    }

    /// Whether a token kind may start an expression.
    fn is_expr_start(typ: TokenType) -> (b: bool)
        ensures
            b == starts_expr(typ),
    {
        match typ {
            TokenType::Bang | TokenType::Minus | TokenType::True | TokenType::False
                | TokenType::Nil | TokenType::This | TokenType::Number | TokenType::String
                | TokenType::Identifier | TokenType::LeftParen | TokenType::Super => true,
            _ => false,
        }
    }
}

/// Structural equality on token kinds.
fn token_type_eq(a: TokenType, b: TokenType) -> (r: bool)
    ensures
        r == (a == b),
{
    a == b
}

/// How a parse step relates to the recorded diagnostics: success records
/// nothing; failure records exactly one diagnostic, whose kind is the error
/// returned.
pub open spec fn parse_errors_post<'t>(
    pre: Compiler<'t>,
    post: Compiler<'t>,
    r: CompileResult,
) -> bool {
    match r {
        Ok(()) => post.spec_errors() == pre.spec_errors(),
        Err(e) => {
            &&& post.spec_errors().len() == pre.spec_errors().len() + 1
            &&& post.spec_errors()[pre.spec_errors().len() as int].0 == e
            &&& (forall|i: int|
                0 <= i < pre.spec_errors().len() ==> #[trigger] post.spec_errors()[i]
                    == pre.spec_errors()[i])
        },
    }
}


// ---------------------------------------------------------------------------
// The specification-level compiler.
//
// Each `c_*` function below gives the meaning of the corresponding parse
// function as a pure transformation of a `CompState`: what it consumes from
// the token stream, what it appends to the code, constant pool, object list
// and line map, which diagnostics it records, and what it returns. The
// executable parse functions are proved to produce exactly these outcomes,
// and `compile` exactly `c_program`'s — so the compiled chunk and the
// result are functions of the token stream alone.
// ---------------------------------------------------------------------------

/// The compiler's observable state: the cursor into the token stream, the
/// emitted code, constants, object bodies and line map, and the recorded
/// diagnostics.
#[verifier::ext_equal]
pub ghost struct CompState {
    pub idx: int,
    pub code: Seq<u8>,
    pub consts: Seq<RuntimeValue>,
    pub objs: Seq<Seq<char>>,
    pub lines: Seq<(usize, usize)>,
    pub errors: Seq<(CompileErr, usize)>,
}

/// One parse step's outcome: the state it leaves and its result.
#[verifier::ext_equal]
pub ghost struct CompOutcome {
    pub st: CompState,
    pub result: Result<(), CompileErr>,
}

/// The cursor is on a token.
pub open spec fn c_in<'t>(toks: Seq<Token<'t>>, st: CompState) -> bool {
    0 <= st.idx < toks.len()
}

/// Record a diagnostic and fail with it.
pub open spec fn c_fail(st: CompState, e: CompileErr, line: usize) -> CompOutcome {
    CompOutcome { st: CompState { errors: st.errors.push((e, line)), ..st }, result: Err(e) }
}

/// Consume one token.
pub open spec fn c_advance(st: CompState) -> CompState {
    CompState { idx: st.idx + 1, ..st }
}

/// Append one zero-operand opcode at `line`.
pub open spec fn c_emit_op(st: CompState, op: u8, line: usize) -> CompState {
    CompState { code: st.code.push(op), lines: rle_push(st.lines, line, 1), ..st }
}

/// Append `val` to the constant pool and the instruction that pushes it,
/// or fail (state unchanged) when the pool is full.
pub open spec fn c_emit_constant(st: CompState, val: RuntimeValue, line: usize) -> CompOutcome {
    if st.consts.len() >= 0xFF_FFFF {
        CompOutcome { st, result: Err(CompileErr::TooManyConstants) }
    } else {
        let instr = constant_instr(st.consts.len() as int);
        CompOutcome {
            st: CompState {
                code: st.code + instr,
                consts: st.consts.push(val),
                lines: rle_push(st.lines, line, instr.len() as usize),
                ..st
            },
            result: Ok(()),
        }
    }
}

/// Allocate a string object for `body` and emit a constant referring to it.
/// On failure the object is still allocated (mirroring the emitter), but
/// nothing else changes.
pub open spec fn c_emit_constant_string(st: CompState, body: Seq<char>, line: usize) -> CompOutcome {
    let handle = st.objs.len() as usize;
    let st1 = CompState { objs: st.objs.push(body), ..st };
    c_emit_constant(st1, RuntimeValue::String(handle), line)
}

/// Intern `name` as a string constant and append a global-variable
/// instruction carrying its 1-byte pool index, or fail (state unchanged)
/// when the index would not fit that byte.
pub open spec fn c_emit_global(st: CompState, op: u8, name: Seq<char>, line: usize) -> CompOutcome {
    if st.consts.len() > 0xFF {
        CompOutcome { st, result: Err(CompileErr::TooManyConstants) }
    } else {
        let idx = st.consts.len();
        CompOutcome {
            st: CompState {
                objs: st.objs.push(name),
                consts: st.consts.push(RuntimeValue::String(st.objs.len() as usize)),
                code: st.code + seq![op, idx as u8],
                lines: rle_push(st.lines, line, 2),
                ..st
            },
            result: Ok(()),
        }
    }
}

/// Consume one token, demanding kind `expected`; an in-band lexing error
/// surfaces as `LexError`, a mismatch as `err` at the offending line
/// (`Eof` is never consumed).
pub open spec fn c_expect<'t>(
    toks: Seq<Token<'t>>,
    st: CompState,
    expected: TokenType,
    err: CompileErr,
) -> CompOutcome {
    let t = toks[st.idx];
    if t.typ is Error {
        c_fail(c_advance(st), CompileErr::LexError, t.line)
    } else if t.typ == TokenType::Eof {
        c_fail(st, err, t.line)
    } else if t.typ == expected {
        CompOutcome { st: c_advance(st), result: Ok(()) }
    } else {
        c_fail(c_advance(st), err, t.line)
    }
}

/// A numeric literal: its binary64 pattern as a constant, or `DoubleParse`.
pub open spec fn c_number(st: CompState, tok: Token) -> CompOutcome {
    match bits_of_decimal(tok.lexeme@) {
        Some(bits) => {
            let o = c_emit_constant(st, crate::runtime_val::RuntimeValue::Number(bits), tok.line);
            match o.result {
                Ok(()) => o,
                Err(e) => c_fail(o.st, e, tok.line),
            }
        },
        None => c_fail(st, CompileErr::DoubleParse, tok.line),
    }
}

/// `nil`, `true`, `false`: one zero-operand opcode.
pub open spec fn c_literal(st: CompState, tok: Token) -> CompState {
    c_emit_op(
        st,
        match tok.typ {
            TokenType::Nil => opcodes::NIL,
            TokenType::True => opcodes::TRUE,
            _ => opcodes::FALSE,
        },
        tok.line,
    )
}

/// A string literal: its body (quotes stripped) as a string constant.
pub open spec fn c_string(st: CompState, tok: Token) -> CompOutcome {
    let body = tok.lexeme@.subrange(1, tok.lexeme@.len() - 1);
    let o = c_emit_constant_string(st, body, tok.line);
    match o.result {
        Ok(()) => o,
        Err(e) => c_fail(o.st, e, tok.line),
    }
}

/// The opcodes a binary operator appends after its right operand.
pub open spec fn c_binary_ops(st: CompState, typ: TokenType, line: usize) -> CompState {
    match typ {
        TokenType::Plus => c_emit_op(st, opcodes::ADD, line),
        TokenType::Minus => c_emit_op(st, opcodes::SUBTRACT, line),
        TokenType::Star => c_emit_op(st, opcodes::MULTIPLY, line),
        TokenType::Slash => c_emit_op(st, opcodes::DIVIDE, line),
        TokenType::BangEqual => c_emit_op(c_emit_op(st, opcodes::EQUAL, line), opcodes::NOT, line),
        TokenType::EqualEqual => c_emit_op(st, opcodes::EQUAL, line),
        TokenType::Greater => c_emit_op(st, opcodes::GREATER, line),
        TokenType::GreaterEqual => c_emit_op(
            c_emit_op(st, opcodes::LESS, line),
            opcodes::NOT,
            line,
        ),
        TokenType::Less => c_emit_op(st, opcodes::LESS, line),
        TokenType::LessEqual => c_emit_op(
            c_emit_op(st, opcodes::GREATER, line),
            opcodes::NOT,
            line,
        ),
        _ => st,
    }
}

/// `declaration -> varDecl | statement`; classes and functions reserved.
pub open spec fn c_declaration<'t>(toks: Seq<Token<'t>>, st: CompState, tok: Token<'t>) -> CompOutcome
    decreases toks.len() - st.idx, 12int,
{
    match tok.typ {
        TokenType::Class => c_fail(st, CompileErr::Unimplemented, tok.line),
        TokenType::Fun => c_fail(st, CompileErr::Unimplemented, tok.line),
        TokenType::Var => c_variable_declaration(toks, st),
        _ => c_statement(toks, st, tok),
    }
}

/// `statement -> printStmt | block | exprStmt`; control flow reserved.
pub open spec fn c_statement<'t>(toks: Seq<Token<'t>>, st: CompState, tok: Token<'t>) -> CompOutcome
    decreases toks.len() - st.idx, 11int,
{
    match tok.typ {
        TokenType::For | TokenType::If | TokenType::Return | TokenType::While => c_fail(
            st,
            CompileErr::Unimplemented,
            tok.line,
        ),
        TokenType::Print => c_print_stmt(toks, st, tok.line),
        TokenType::LeftBrace => c_block_stmt(toks, st),
        _ => {
            if starts_expr(tok.typ) {
                c_expr_stmt(toks, st, tok)
            } else {
                c_fail(st, CompileErr::ExpectedDeclOrStmt, tok.line)
            }
        },
    }
}

/// `varDecl -> "var" IDENTIFIER ( "=" expression )? ";"`.
pub open spec fn c_variable_declaration<'t>(toks: Seq<Token<'t>>, st: CompState) -> CompOutcome
    decreases toks.len() - st.idx, 11int,
{
    if !c_in(toks, st) {
        CompOutcome { st, result: Ok(()) }
    } else {
        let ident = toks[st.idx];
        let o1 = c_expect(toks, st, TokenType::Identifier, CompileErr::ExpectedIdentifier);
        if o1.result is Err {
            o1
        } else if !c_in(toks, o1.st) {
            o1
        } else {
            let p = toks[o1.st.idx];
            if p.typ == TokenType::Equal {
                let st2 = c_advance(o1.st);
                if !c_in(toks, st2) {
                    CompOutcome { st: st2, result: Ok(()) }
                } else {
                    let t2 = toks[st2.idx];
                    if t2.typ is Error {
                        c_fail(c_advance(st2), CompileErr::LexError, t2.line)
                    } else {
                        let st3 = if t2.typ == TokenType::Eof {
                            st2
                        } else {
                            c_advance(st2)
                        };
                        let o2 = c_expression(toks, st3, t2);
                        if o2.result is Err {
                            o2
                        } else {
                            c_var_tail(toks, o2.st, ident)
                        }
                    }
                }
            } else {
                c_var_tail(toks, c_emit_op(o1.st, opcodes::NIL, ident.line), ident)
            }
        }
    }
}

/// The tail of a variable declaration: the semicolon and `DEFINE_GLOBAL`.
pub open spec fn c_var_tail<'t>(toks: Seq<Token<'t>>, st: CompState, ident: Token<'t>) -> CompOutcome {
    let o = c_expect(toks, st, TokenType::Semicolon, CompileErr::UnexpectedToken);
    if o.result is Err {
        o
    } else {
        let o2 = c_emit_global(o.st, opcodes::DEFINE_GLOBAL, ident.lexeme@, ident.line);
        match o2.result {
            Ok(()) => o2,
            Err(e) => c_fail(o2.st, e, ident.line),
        }
    }
}

/// `printStmt -> "print" expression ";"`.
pub open spec fn c_print_stmt<'t>(toks: Seq<Token<'t>>, st: CompState, print_line: usize) -> CompOutcome
    decreases toks.len() - st.idx, 10int,
{
    if !c_in(toks, st) {
        CompOutcome { st, result: Ok(()) }
    } else {
        let t = toks[st.idx];
        if t.typ is Error {
            c_fail(c_advance(st), CompileErr::LexError, t.line)
        } else {
            let st1 = if t.typ == TokenType::Eof {
                st
            } else {
                c_advance(st)
            };
            let o = c_expression(toks, st1, t);
            if o.result is Err {
                o
            } else {
                let o2 = c_expect(toks, o.st, TokenType::Semicolon, CompileErr::UnexpectedToken);
                if o2.result is Err {
                    o2
                } else {
                    CompOutcome { st: c_emit_op(o2.st, opcodes::PRINT, print_line), result: Ok(()) }
                }
            }
        }
    }
}

/// `exprStmt -> expression ";"`, then `POP`.
pub open spec fn c_expr_stmt<'t>(toks: Seq<Token<'t>>, st: CompState, tok: Token<'t>) -> CompOutcome
    decreases toks.len() - st.idx, 10int,
{
    let o = c_expression(toks, st, tok);
    if o.result is Err {
        o
    } else {
        let o2 = c_expect(toks, o.st, TokenType::Semicolon, CompileErr::UnexpectedToken);
        if o2.result is Err {
            o2
        } else {
            CompOutcome { st: c_emit_op(o2.st, opcodes::POP, tok.line), result: Ok(()) }
        }
    }
}

/// `block -> "{" declaration* "}"`; `Eof` first is an unclosed block.
pub open spec fn c_block_stmt<'t>(toks: Seq<Token<'t>>, st: CompState) -> CompOutcome
    decreases toks.len() - st.idx, 10int,
{
    if !c_in(toks, st) {
        CompOutcome { st, result: Ok(()) }
    } else {
        let t = toks[st.idx];
        if t.typ is Error {
            c_fail(c_advance(st), CompileErr::LexError, t.line)
        } else if t.typ == TokenType::RightBrace {
            CompOutcome { st: c_advance(st), result: Ok(()) }
        } else if t.typ == TokenType::Eof {
            c_fail(st, CompileErr::UnclosedBlock, t.line)
        } else {
            let o = c_declaration(toks, c_advance(st), t);
            if o.result is Err {
                o
            } else if st.idx < o.st.idx <= toks.len() {
                c_block_stmt(toks, o.st)
            } else {
                o
            }
        }
    }
}

/// `expression -> assignment`: a full climb from the lowest binding power.
pub open spec fn c_expression<'t>(toks: Seq<Token<'t>>, st: CompState, tok: Token<'t>) -> CompOutcome
    decreases toks.len() - st.idx, 9int,
{
    if starts_expr(tok.typ) {
        c_parse_precedence(toks, st, PREC_ASSIGNMENT, tok)
    } else {
        c_fail(st, CompileErr::ExpectedExpr, tok.line)
    }
}

/// The Pratt climb: the consumed token's prefix rule, then infix rules
/// while the next binding power is at least `prec`, then the
/// assignment-target check.
pub open spec fn c_parse_precedence<'t>(
    toks: Seq<Token<'t>>,
    st: CompState,
    prec: u8,
    tok: Token<'t>,
) -> CompOutcome
    decreases toks.len() - st.idx, 8int,
{
    let can_assign = prec <= PREC_ASSIGNMENT;
    let o = c_prefix_rule(toks, st, tok, can_assign);
    if o.result is Err {
        o
    } else {
        let o2 = if st.idx <= o.st.idx <= toks.len() {
            c_infix_loop(toks, o.st, prec)
        } else {
            o
        };
        if o2.result is Err {
            o2
        } else if c_in(toks, o2.st) && can_assign && toks[o2.st.idx].typ == TokenType::Equal {
            c_fail(o2.st, CompileErr::InvalidAssignmentTarget, tok.line)
        } else {
            o2
        }
    }
}

/// While the next token's binding power is at least `prec`: consume it and
/// apply its infix rule.
pub open spec fn c_infix_loop<'t>(toks: Seq<Token<'t>>, st: CompState, prec: u8) -> CompOutcome
    decreases toks.len() - st.idx, 7int,
{
    if !c_in(toks, st) {
        CompOutcome { st, result: Ok(()) }
    } else {
        let t = toks[st.idx];
        if prec <= precedence_of(t.typ) {
            if t.typ is Error {
                c_fail(c_advance(st), CompileErr::LexError, t.line)
            } else {
                let st1 = if t.typ == TokenType::Eof {
                    st
                } else {
                    c_advance(st)
                };
                let o = c_infix_rule(toks, st1, t);
                if o.result is Err {
                    o
                } else if st.idx < o.st.idx <= toks.len() {
                    c_infix_loop(toks, o.st, prec)
                } else {
                    o
                }
            }
        } else {
            CompOutcome { st, result: Ok(()) }
        }
    }
}

/// The prefix rule of a consumed expression-starting token.
pub open spec fn c_prefix_rule<'t>(
    toks: Seq<Token<'t>>,
    st: CompState,
    tok: Token<'t>,
    can_assign: bool,
) -> CompOutcome
    decreases toks.len() - st.idx, 6int,
{
    match tok.typ {
        TokenType::Identifier => c_variable(toks, st, tok, can_assign),
        TokenType::LeftParen => c_grouping(toks, st),
        TokenType::Number => c_number(st, tok),
        TokenType::String => c_string(st, tok),
        TokenType::Minus | TokenType::Bang => c_unary(toks, st, tok),
        TokenType::Nil | TokenType::False | TokenType::True => CompOutcome {
            st: c_literal(st, tok),
            result: Ok(()),
        },
        TokenType::This | TokenType::Super => c_fail(st, CompileErr::Unimplemented, tok.line),
        _ => CompOutcome { st, result: Ok(()) },
    }
}

/// The infix rule of a consumed operator token.
pub open spec fn c_infix_rule<'t>(toks: Seq<Token<'t>>, st: CompState, tok: Token<'t>) -> CompOutcome
    decreases toks.len() - st.idx, 6int,
{
    if precedence_of(tok.typ) >= PREC_EQUALITY {
        c_binary(toks, st, tok)
    } else {
        CompOutcome { st, result: Ok(()) }
    }
}

/// `grouping -> "(" expression ")"`.
pub open spec fn c_grouping<'t>(toks: Seq<Token<'t>>, st: CompState) -> CompOutcome
    decreases toks.len() - st.idx, 5int,
{
    if !c_in(toks, st) {
        CompOutcome { st, result: Ok(()) }
    } else {
        let t = toks[st.idx];
        if t.typ is Error {
            c_fail(c_advance(st), CompileErr::LexError, t.line)
        } else if !starts_expr(t.typ) {
            let st1 = if t.typ == TokenType::Eof {
                st
            } else {
                c_advance(st)
            };
            c_fail(st1, CompileErr::ExpectedExpr, t.line)
        } else {
            let o = c_parse_precedence(toks, c_advance(st), PREC_ASSIGNMENT, t);
            if o.result is Err {
                o
            } else {
                c_expect(toks, o.st, TokenType::RightParen, CompileErr::UnexpectedToken)
            }
        }
    }
}

/// An infix binary operator: the right operand one power above the
/// operator's own, then the operator's opcodes.
pub open spec fn c_binary<'t>(toks: Seq<Token<'t>>, st: CompState, tok: Token<'t>) -> CompOutcome
    decreases toks.len() - st.idx, 5int,
{
    if !c_in(toks, st) {
        CompOutcome { st, result: Ok(()) }
    } else {
        let t = toks[st.idx];
        if t.typ is Error {
            c_fail(c_advance(st), CompileErr::LexError, t.line)
        } else if !starts_expr(t.typ) {
            let st1 = if t.typ == TokenType::Eof {
                st
            } else {
                c_advance(st)
            };
            c_fail(st1, CompileErr::ExpectedExpr, t.line)
        } else {
            let o = c_parse_precedence(
                toks,
                c_advance(st),
                (precedence_of(tok.typ) + 1) as u8,
                t,
            );
            if o.result is Err {
                o
            } else {
                CompOutcome { st: c_binary_ops(o.st, tok.typ, tok.line), result: Ok(()) }
            }
        }
    }
}

/// A bare identifier: a global store when assignable and followed by `=`,
/// else a global read.
pub open spec fn c_variable<'t>(
    toks: Seq<Token<'t>>,
    st: CompState,
    tok: Token<'t>,
    can_assign: bool,
) -> CompOutcome
    decreases toks.len() - st.idx, 5int,
{
    let read = c_emit_global(st, opcodes::GET_GLOBAL, tok.lexeme@, tok.line);
    if !c_in(toks, st) {
        match read.result {
            Ok(()) => read,
            Err(e) => c_fail(read.st, e, tok.line),
        }
    } else if can_assign && toks[st.idx].typ == TokenType::Equal {
        let st1 = c_advance(st);
        if !c_in(toks, st1) {
            CompOutcome { st: st1, result: Ok(()) }
        } else {
            let t2 = toks[st1.idx];
            if t2.typ is Error {
                c_fail(c_advance(st1), CompileErr::LexError, t2.line)
            } else {
                let st2 = if t2.typ == TokenType::Eof {
                    st1
                } else {
                    c_advance(st1)
                };
                let o = c_expression(toks, st2, t2);
                if o.result is Err {
                    o
                } else {
                    let o2 = c_emit_global(o.st, opcodes::SET_GLOBAL, tok.lexeme@, tok.line);
                    match o2.result {
                        Ok(()) => o2,
                        Err(e) => c_fail(o2.st, e, tok.line),
                    }
                }
            }
        }
    } else {
        match read.result {
            Ok(()) => read,
            Err(e) => c_fail(read.st, e, tok.line),
        }
    }
}

/// Unary `!` or `-`: the operand at unary precedence, then the opcode.
pub open spec fn c_unary<'t>(toks: Seq<Token<'t>>, st: CompState, tok: Token<'t>) -> CompOutcome
    decreases toks.len() - st.idx, 5int,
{
    if !c_in(toks, st) {
        CompOutcome { st, result: Ok(()) }
    } else {
        let t = toks[st.idx];
        if t.typ is Error {
            c_fail(c_advance(st), CompileErr::LexError, t.line)
        } else if !starts_expr(t.typ) {
            let st1 = if t.typ == TokenType::Eof {
                st
            } else {
                c_advance(st)
            };
            c_fail(st1, CompileErr::ExpectedExpr, t.line)
        } else {
            let o = c_parse_precedence(toks, c_advance(st), PREC_UNARY, t);
            if o.result is Err {
                o
            } else {
                let op = if tok.typ == TokenType::Minus {
                    opcodes::NEGATE
                } else {
                    opcodes::NOT
                };
                CompOutcome { st: c_emit_op(o.st, op, tok.line), result: Ok(()) }
            }
        }
    }
}

/// Skip tokens until a statement boundary.
pub open spec fn c_synchronize<'t>(toks: Seq<Token<'t>>, st: CompState) -> CompState
    decreases toks.len() - st.idx,
{
    if !c_in(toks, st) {
        st
    } else {
        match toks[st.idx].typ {
            TokenType::Eof | TokenType::Class | TokenType::Fun | TokenType::Var | TokenType::For
                | TokenType::If | TokenType::While | TokenType::Print | TokenType::Return => st,
            _ => c_synchronize(toks, c_advance(st)),
        }
    }
}

/// Finish a compilation: the trailing `RETURN`, and the first recorded
/// diagnostic (if any) as the overall result.
pub open spec fn c_finish(st: CompState) -> CompOutcome {
    CompOutcome {
        st: c_emit_op(st, opcodes::RETURN, 0),
        result: if st.errors.len() == 0 {
            Ok(())
        } else {
            Err(st.errors[0].0)
        },
    }
}

/// The whole program: declarations until `Eof`, synchronizing after each
/// error, then `c_finish`.
pub open spec fn c_program<'t>(toks: Seq<Token<'t>>, st: CompState) -> CompOutcome
    decreases toks.len() - st.idx,
{
    if !c_in(toks, st) {
        c_finish(st)
    } else {
        let t = toks[st.idx];
        if t.typ == TokenType::Eof {
            c_finish(st)
        } else if t.typ is Error {
            let st1 = c_synchronize(
                toks,
                CompState {
                    errors: st.errors.push((CompileErr::LexError, t.line)),
                    ..c_advance(st)
                },
            );
            if st.idx < st1.idx <= toks.len() {
                c_program(toks, st1)
            } else {
                c_finish(st1)
            }
        } else {
            let o = c_declaration(toks, c_advance(st), t);
            let st1 = if o.result is Err {
                c_synchronize(toks, o.st)
            } else {
                o.st
            };
            if st.idx < st1.idx <= toks.len() {
                c_program(toks, st1)
            } else {
                c_finish(st1)
            }
        }
    }
}

} // verus!
