//! The bytecode chunk: code bytes (opcodes interleaved with immediate
//! operands), the constant pool, the run-length-encoded line map, and the
//! compile-time heap objects that `String` constants refer to.
//!
//! A chunk is kept decodable at all times: `wf` says that the code is a
//! complete stream of valid instructions whose constant-pool indices are in
//! range, that global-variable operands name `String` constants, that every
//! `String` constant's handle points into the object list, and that the line
//! map accounts for every code byte.

pub mod opcodes;

use crate::compiler::CompileErr;
use crate::runtime_val::{RuntimeValue, StringObj};
use vstd::prelude::*;

verus! {

pub type Bytecode = u8;

/// Bytes of immediate operands the opcode carries, plus one for the opcode.
pub open spec fn instr_len(op: u8) -> int {
    if op == opcodes::CONSTANT_LONG {
        4
    } else if op == opcodes::CONSTANT || op == opcodes::GET_LOCAL || op == opcodes::SET_LOCAL
        || is_global_op(op) {
        2
    } else {
        1
    }
}

pub open spec fn is_global_op(op: u8) -> bool {
    op == opcodes::GET_GLOBAL || op == opcodes::DEFINE_GLOBAL || op == opcodes::SET_GLOBAL
}

pub open spec fn is_opcode(op: u8) -> bool {
    ||| op == opcodes::CONSTANT
    ||| op == opcodes::NIL
    ||| op == opcodes::TRUE
    ||| op == opcodes::FALSE
    ||| op == opcodes::POP
    ||| op == opcodes::GET_LOCAL
    ||| op == opcodes::SET_LOCAL
    ||| op == opcodes::GET_GLOBAL
    ||| op == opcodes::DEFINE_GLOBAL
    ||| op == opcodes::SET_GLOBAL
    ||| op == opcodes::EQUAL
    ||| op == opcodes::GREATER
    ||| op == opcodes::LESS
    ||| op == opcodes::ADD
    ||| op == opcodes::SUBTRACT
    ||| op == opcodes::MULTIPLY
    ||| op == opcodes::DIVIDE
    ||| op == opcodes::NOT
    ||| op == opcodes::NEGATE
    ||| op == opcodes::PRINT
    ||| op == opcodes::RETURN
    ||| op == opcodes::CONSTANT_LONG
}

/// The 24-bit little-endian operand starting at `j`.
pub open spec fn le24(code: Seq<u8>, j: int) -> int {
    code[j] as int + 256 * (code[j + 1] as int) + 65536 * (code[j + 2] as int)
}

/// One valid instruction starts at `i`: a known opcode, complete operands,
/// constant indices in range, and global operands naming string constants.
pub open spec fn instr_wf(code: Seq<u8>, consts: Seq<RuntimeValue>, i: int) -> bool {
    let op = code[i];
    &&& is_opcode(op)
    &&& i + instr_len(op) <= code.len()
    &&& (op == opcodes::CONSTANT ==> (code[i + 1] as int) < consts.len())
    &&& (op == opcodes::CONSTANT_LONG ==> le24(code, i + 1) < consts.len())
    &&& (is_global_op(op) ==> (code[i + 1] as int) < consts.len() && (consts[code[i + 1] as int]
        is String))
}

/// The code from `i` to the end is a complete stream of valid instructions.
pub open spec fn stream_wf(code: Seq<u8>, consts: Seq<RuntimeValue>, i: int) -> bool
    decreases code.len() - i,
{
    if i < 0 || i > code.len() {
        false
    } else if i == code.len() {
        true
    } else if instr_wf(code, consts, i) {
        stream_wf(code, consts, i + instr_len(code[i]))
    } else {
        false
    }
}

/// A value is valid with respect to an object list of `nobjs` entries.
pub open spec fn value_wf(v: RuntimeValue, nobjs: int) -> bool {
    match v {
        RuntimeValue::String(h) => (h as int) < nobjs,
        _ => true,
    }
}

pub open spec fn constants_wf(consts: Seq<RuntimeValue>, nobjs: int) -> bool {
    forall|i: int| 0 <= i < consts.len() ==> value_wf(#[trigger] consts[i], nobjs)
}

/// Total number of code bytes the line map accounts for.
pub open spec fn lines_total(lines: Seq<(usize, usize)>) -> int
    decreases lines.len(),
{
    if lines.len() == 0 {
        0
    } else {
        lines_total(lines.drop_last()) + lines.last().1
    }
}

/// Appending `k` bytes at source line `line` either extends the last run
/// (when its line matches) or starts a new one.
pub open spec fn rle_push(lines: Seq<(usize, usize)>, line: usize, k: usize) -> Seq<
    (usize, usize),
> {
    if lines.len() > 0 && lines.last().0 == line {
        lines.update(lines.len() - 1, (line, (lines.last().1 + k) as usize))
    } else {
        lines.push((line, k))
    }
}

/// The source line of the byte at `ip`: walk the runs subtracting counts.
/// Queries past the end give the last recorded line; an empty map gives 0.
pub open spec fn line_at_spec(lines: Seq<(usize, usize)>, ip: int) -> usize
    decreases lines.len(),
{
    if lines.len() == 0 {
        0
    } else if ip < lines[0].1 || lines.len() == 1 {
        lines[0].0
    } else {
        line_at_spec(lines.subrange(1, lines.len() as int), ip - lines[0].1)
    }
}

/// The compiled program.
pub struct Chunk {
    /// Opcodes interleaved with immediate operands.
    pub code: Vec<Bytecode>,
    /// The constant pool; indices into it are embedded in `code`.
    pub constants: Vec<RuntimeValue>,
    /// Run-length-encoded line map: `(line, byte count)` pairs.
    pub lines: Vec<(usize, usize)>,
    /// Compile-time heap objects; `String` constants hold indices into this
    /// list. Ownership transfers to the virtual machine's object list.
    pub objects: Vec<StringObj>,
}

impl Chunk {
    /// Every invariant of a decodable chunk, including that the line map's
    /// counts sum to exactly the length of `code`.
    pub open spec fn wf(self) -> bool {
        &&& stream_wf(self.code@, self.constants@, 0)
        &&& constants_wf(self.constants@, self.objects@.len() as int)
        &&& lines_total(self.lines@) == self.code@.len()
    }

    pub fn new() -> (c: Chunk)
        ensures
            c.wf(),
            c.code@ == Seq::<u8>::empty(),
            c.constants@ == Seq::<RuntimeValue>::empty(),
            c.lines@ == Seq::<(usize, usize)>::empty(),
            c.objects@ == Seq::<StringObj>::empty(),
    {
        let c = Chunk { code: Vec::new(), constants: Vec::new(), lines: Vec::new(), objects: Vec::new() };
        proof {
            assert(lines_total(c.lines@) == 0);
        }
        c
    }

    /// Record `bytes` newly appended code bytes against `line`.
    fn at_line(&mut self, line: usize, bytes: usize)
        requires
            lines_total(old(self).lines@) + bytes <= usize::MAX,
            lines_total(old(self).lines@) >= 0,
        ensures
            final(self).lines@ == rle_push(old(self).lines@, line, bytes),
            final(self).code == old(self).code,
            final(self).constants == old(self).constants,
            final(self).objects == old(self).objects,
            lines_total(final(self).lines@) == lines_total(old(self).lines@) + bytes,
    {
        proof {
            lemma_lines_total_nonneg(self.lines@);
        }
        let n = self.lines.len();
        if n > 0 {
            let last = self.lines[n - 1];
            if last.0 == line {
                proof {
                    lemma_last_le_total(self.lines@);
                }
                self.lines.set(n - 1, (line, last.1 + bytes));
                proof {
                    assert(self.lines@.drop_last() =~= old(self).lines@.drop_last());
                    assert(lines_total(self.lines@) == lines_total(old(self).lines@) + bytes);
                }
                return ;
            }
        }
        self.lines.push((line, bytes));
        proof {
            assert(self.lines@.drop_last() =~= old(self).lines@);
        }
    }

    /// Append a zero-operand opcode at `line`.
    pub fn emit_opcode(&mut self, opcode: Bytecode, line: usize)
        requires
            old(self).wf(),
            is_opcode(opcode),
            instr_len(opcode) == 1,
        ensures
            final(self).wf(),
            final(self).code@ == old(self).code@.push(opcode),
            final(self).constants == old(self).constants,
            final(self).objects == old(self).objects,
            final(self).lines@ == rle_push(old(self).lines@, line, 1),
    {
        let ghost code0 = self.code@;
        self.code.push(opcode);
        let n = self.code.len();
        proof {
            assert(lines_total(self.lines@) + 1 == n);
        }
        self.at_line(line, 1);
        proof {
            assert(self.code@.subrange(0, code0.len() as int) =~= code0);
            assert(self.constants@.subrange(0, self.constants@.len() as int) =~= self.constants@);
            assert(stream_wf(self.code@, self.constants@, code0.len() as int)) by {
                assert(self.code@[code0.len() as int] == opcode);
                assert(instr_wf(self.code@, self.constants@, code0.len() as int));
                assert(stream_wf(self.code@, self.constants@, self.code@.len() as int));
            }
            lemma_stream_wf_extend(code0, self.constants@, self.code@, self.constants@, 0);
        }
    }

    /// Append `val` to the constant pool and emit the instruction that
    /// pushes it: `CONSTANT` with a 1-byte index for the first 255 slots,
    /// `CONSTANT_LONG` with a 3-byte little-endian index after that. Fails
    /// with `TooManyConstants` when the pool would exceed 0xFF_FFFF entries,
    /// leaving the chunk unchanged.
    pub fn emit_constant(&mut self, val: RuntimeValue, line: usize) -> (r: Result<
        (),
        CompileErr,
    >)
        requires
            old(self).wf(),
            value_wf(val, old(self).objects@.len() as int),
        ensures
            final(self).wf(),
            final(self).objects == old(self).objects,
            match r {
                Ok(()) => {
                    &&& old(self).constants@.len() < 0xFF_FFFF
                    &&& final(self).constants@ == old(self).constants@.push(val)
                    &&& final(self).code@ == old(self).code@ + constant_instr(
                        old(self).constants@.len() as int,
                    )
                    &&& final(self).lines@ == rle_push(
                        old(self).lines@,
                        line,
                        constant_instr(old(self).constants@.len() as int).len() as usize,
                    )
                },
                Err(e) => {
                    &&& e == CompileErr::TooManyConstants
                    &&& old(self).constants@.len() >= 0xFF_FFFF
                    &&& *final(self) == *old(self)
                },
            },
    {
        let idx = self.constants.len();
        if idx >= 0xFF_FFFF {
            return Err(CompileErr::TooManyConstants);
        }
        let ghost code0 = self.code@;
        let ghost consts0 = self.constants@;
        self.constants.push(val);
        if idx < 0xFF {
            self.code.push(opcodes::CONSTANT);
            self.code.push(idx as u8);
            let n = self.code.len();
            proof {
                assert(lines_total(self.lines@) + 2 == n);
            }
            self.at_line(line, 2);
        } else {
            self.code.push(opcodes::CONSTANT_LONG);
            self.code.push((idx % 256) as u8);
            self.code.push(((idx / 256) % 256) as u8);
            self.code.push(((idx / 65536) % 256) as u8);
            let n = self.code.len();
            proof {
                assert(lines_total(self.lines@) + 4 == n);
            }
            self.at_line(line, 4);
        }
        proof {
            assert(self.code@ =~= code0 + constant_instr(idx as int));
            assert(self.code@.subrange(0, code0.len() as int) =~= code0);
            assert(self.constants@.subrange(0, consts0.len() as int) =~= consts0);
            assert(stream_wf(self.code@, self.constants@, code0.len() as int)) by {
                assert(stream_wf(self.code@, self.constants@, self.code@.len() as int));
                if idx < 0xFF {
                    assert(self.code@[code0.len() as int] == opcodes::CONSTANT);
                    assert(self.code@[code0.len() as int + 1] == idx as u8);
                    assert(instr_wf(self.code@, self.constants@, code0.len() as int));
                } else {
                    assert(self.code@[code0.len() as int] == opcodes::CONSTANT_LONG);
                    assert(le24(self.code@, code0.len() as int + 1) == idx) by {
                        assert(self.code@[code0.len() as int + 1] == (idx % 256) as u8);
                        assert(self.code@[code0.len() as int + 2] == ((idx / 256) % 256) as u8);
                        assert(self.code@[code0.len() as int + 3] == ((idx / 65536) % 256) as u8);
                        assert(idx as int == (idx as int % 256) + 256 * ((idx as int / 256) % 256)
                            + 65536 * ((idx as int / 65536) % 256)) by (nonlinear_arith)
                            requires
                                0 <= idx < 0xFF_FFFF,
                        ;
                    }
                    assert(instr_wf(self.code@, self.constants@, code0.len() as int));
                }
            }
            lemma_stream_wf_extend(code0, consts0, self.code@, self.constants@, 0);
        }
        Ok(())
    }

    /// Allocate a string object for `slice` and emit a constant referring
    /// to it. On failure only the object list may have grown; the emitted
    /// program is unchanged.
    pub fn emit_constant_string(&mut self, slice: &str, line: usize) -> (r: Result<
        (),
        CompileErr,
    >)
        requires
            old(self).wf(),
        ensures
            final(self).wf(),
            match r {
                Ok(()) => {
                    &&& old(self).constants@.len() < 0xFF_FFFF
                    &&& final(self).objects@.len() == old(self).objects@.len() + 1
                    &&& final(self).objects@.last().contents@ == slice@
                    &&& final(self).objects@.subrange(0, old(self).objects@.len() as int) == old(
                        self,
                    ).objects@
                    &&& final(self).constants@ == old(self).constants@.push(
                        RuntimeValue::String(old(self).objects@.len() as usize),
                    )
                    &&& final(self).code@ == old(self).code@ + constant_instr(
                        old(self).constants@.len() as int,
                    )
                    &&& final(self).lines@ == rle_push(
                        old(self).lines@,
                        line,
                        constant_instr(old(self).constants@.len() as int).len() as usize,
                    )
                },
                Err(e) => {
                    &&& e == CompileErr::TooManyConstants
                    &&& old(self).constants@.len() >= 0xFF_FFFF
                    &&& final(self).code == old(self).code
                    &&& final(self).constants == old(self).constants
                    &&& final(self).lines == old(self).lines
                    &&& final(self).objects@.len() == old(self).objects@.len() + 1
                    &&& final(self).objects@.last().contents@ == slice@
                    &&& final(self).objects@.subrange(0, old(self).objects@.len() as int) == old(
                        self,
                    ).objects@
                },
            },
    {
        let handle = self.objects.len();
        let obj = StringObj::new(slice);
        self.objects.push(obj);
        proof {
            assert(self.objects@.subrange(0, old(self).objects@.len() as int) =~= old(
                self,
            ).objects@);
            assert(constants_wf(self.constants@, self.objects@.len() as int));
        }
        self.emit_constant(RuntimeValue::String(handle), line)
    }

    /// Intern `name` as a string constant and return its pool index,
    /// which the global-variable instructions carry as a 1-byte operand.
    /// Fails with `TooManyConstants` when the index would not fit that byte.
    fn identifier_constant(&mut self, name: &str) -> (r: Result<usize, CompileErr>)
        requires
            old(self).wf(),
        ensures
            final(self).wf(),
            final(self).code == old(self).code,
            final(self).lines == old(self).lines,
            match r {
                Ok(idx) => {
                    &&& idx == old(self).constants@.len()
                    &&& idx <= 0xFF
                    &&& final(self).objects@.len() == old(self).objects@.len() + 1
                    &&& final(self).objects@.last().contents@ == name@
                    &&& final(self).objects@.subrange(0, old(self).objects@.len() as int) == old(
                        self,
                    ).objects@
                    &&& final(self).constants@ == old(self).constants@.push(
                        RuntimeValue::String(old(self).objects@.len() as usize),
                    )
                },
                Err(e) => {
                    &&& e == CompileErr::TooManyConstants
                    &&& old(self).constants@.len() > 0xFF
                    &&& final(self).constants == old(self).constants
                    &&& final(self).objects == old(self).objects
                },
            },
    {
        let idx = self.constants.len();
        if idx > 0xFF {
            return Err(CompileErr::TooManyConstants);
        }
        let handle = self.objects.len();
        let obj = StringObj::new(name);
        self.objects.push(obj);
        self.constants.push(RuntimeValue::String(handle));
        proof {
            assert(self.objects@.subrange(0, old(self).objects@.len() as int) =~= old(
                self,
            ).objects@);
            assert(constants_wf(self.constants@, self.objects@.len() as int));
            assert(self.code@.subrange(0, old(self).code@.len() as int) =~= self.code@);
            assert(self.constants@.subrange(0, old(self).constants@.len() as int) =~= old(
                self,
            ).constants@);
            assert(stream_wf(self.code@, self.constants@, self.code@.len() as int));
            lemma_stream_wf_extend(
                old(self).code@,
                old(self).constants@,
                self.code@,
                self.constants@,
                0,
            );
        }
        Ok(idx)
    }

    /// Emit `DEFINE_GLOBAL` carrying the pool index of `name`.
    pub fn emit_declare_global(&mut self, name: &str, line: usize) -> (r: Result<(), CompileErr>)
        requires
            old(self).wf(),
        ensures
            final(self).wf(),
            global_emit_post(*old(self), *final(self), r, opcodes::DEFINE_GLOBAL, name@, line),
    {
        self.emit_global_op(opcodes::DEFINE_GLOBAL, name, line)
    }

    /// Emit `GET_GLOBAL` carrying the pool index of `name`.
    pub fn emit_get_global(&mut self, name: &str, line: usize) -> (r: Result<(), CompileErr>)
        requires
            old(self).wf(),
        ensures
            final(self).wf(),
            global_emit_post(*old(self), *final(self), r, opcodes::GET_GLOBAL, name@, line),
    {
        self.emit_global_op(opcodes::GET_GLOBAL, name, line)
    }

    /// Emit `SET_GLOBAL` carrying the pool index of `name`.
    pub fn emit_set_global(&mut self, name: &str, line: usize) -> (r: Result<(), CompileErr>)
        requires
            old(self).wf(),
        ensures
            final(self).wf(),
            global_emit_post(*old(self), *final(self), r, opcodes::SET_GLOBAL, name@, line),
    {
        self.emit_global_op(opcodes::SET_GLOBAL, name, line)
    }

    /// Shared emission for the three global-variable instructions.
    fn emit_global_op(&mut self, op: Bytecode, name: &str, line: usize) -> (r: Result<
        (),
        CompileErr,
    >)
        requires
            old(self).wf(),
            is_global_op(op),
        ensures
            final(self).wf(),
            global_emit_post(*old(self), *final(self), r, op, name@, line),
    {
        let idx = match self.identifier_constant(name) {
            Ok(idx) => idx,
            Err(e) => {
                return Err(e);
            },
        };
        let ghost code0 = self.code@;
        let ghost consts0 = self.constants@;
        self.code.push(op);
        self.code.push(idx as u8);
        let n = self.code.len();
        proof {
            assert(lines_total(self.lines@) + 2 == n);
        }
        self.at_line(line, 2);
        proof {
            assert(self.code@.subrange(0, code0.len() as int) =~= code0);
            assert(self.constants@.subrange(0, consts0.len() as int) =~= consts0);
            assert(stream_wf(self.code@, self.constants@, code0.len() as int)) by {
                assert(self.code@[code0.len() as int] == op);
                assert(self.code@[code0.len() as int + 1] == idx as u8);
                assert(self.constants@[idx as int] is String);
                assert(instr_wf(self.code@, self.constants@, code0.len() as int));
                assert(stream_wf(self.code@, self.constants@, self.code@.len() as int));
            }
            lemma_stream_wf_extend(code0, consts0, self.code@, self.constants@, 0);
            assert(self.code@ =~= code0 + seq![op, idx as u8]);
        }
        Ok(())
    }

    /// Emit `GET_LOCAL` with a 1-byte stack slot operand.
    pub fn emit_get_local(&mut self, index: usize, line: usize)
        requires
            old(self).wf(),
            index <= 0xFF,
        ensures
            final(self).wf(),
            final(self).code@ == old(self).code@ + seq![opcodes::GET_LOCAL, index as u8],
            final(self).constants == old(self).constants,
            final(self).objects == old(self).objects,
            final(self).lines@ == rle_push(old(self).lines@, line, 2),
    {
        self.emit_local_op(opcodes::GET_LOCAL, index, line)
    }

    /// Emit `SET_LOCAL` with a 1-byte stack slot operand.
    pub fn emit_set_local(&mut self, index: usize, line: usize)
        requires
            old(self).wf(),
            index <= 0xFF,
        ensures
            final(self).wf(),
            final(self).code@ == old(self).code@ + seq![opcodes::SET_LOCAL, index as u8],
            final(self).constants == old(self).constants,
            final(self).objects == old(self).objects,
            final(self).lines@ == rle_push(old(self).lines@, line, 2),
    {
        self.emit_local_op(opcodes::SET_LOCAL, index, line)
    }

    /// Shared emission for the two local-variable instructions.
    fn emit_local_op(&mut self, op: Bytecode, index: usize, line: usize)
        requires
            old(self).wf(),
            index <= 0xFF,
            op == opcodes::GET_LOCAL || op == opcodes::SET_LOCAL,
        ensures
            final(self).wf(),
            final(self).code@ == old(self).code@ + seq![op, index as u8],
            final(self).constants == old(self).constants,
            final(self).objects == old(self).objects,
            final(self).lines@ == rle_push(old(self).lines@, line, 2),
    {
        let ghost code0 = self.code@;
        self.code.push(op);
        self.code.push(index as u8);
        let n = self.code.len();
        proof {
            assert(lines_total(self.lines@) + 2 == n);
        }
        self.at_line(line, 2);
        proof {
            assert(self.code@.subrange(0, code0.len() as int) =~= code0);
            assert(self.constants@.subrange(0, self.constants@.len() as int) =~= self.constants@);
            assert(stream_wf(self.code@, self.constants@, code0.len() as int)) by {
                assert(self.code@[code0.len() as int] == op);
                assert(instr_wf(self.code@, self.constants@, code0.len() as int));
                assert(stream_wf(self.code@, self.constants@, self.code@.len() as int));
            }
            lemma_stream_wf_extend(code0, self.constants@, self.code@, self.constants@, 0);
            assert(self.code@ =~= code0 + seq![op, index as u8]);
        }
    }

    /// The source line of the byte at `ip`.
    pub fn get_line_at_ip(&self, ip: usize) -> (line: usize)
        ensures
            line == line_at_spec(self.lines@, ip as int),
    {
        let n = self.lines.len();
        let mut i: usize = 0;
        let mut rem: usize = ip;
        proof {
            assert(self.lines@.subrange(0, n as int) =~= self.lines@);
        }
        loop
            invariant
                i <= n,
                n == self.lines@.len(),
                line_at_spec(self.lines@, ip as int) == line_at_spec(
                    self.lines@.subrange(i as int, n as int),
                    rem as int,
                ),
            decreases n - i,
        {
            if i >= n {
                return 0;
            }
            let (ln, cnt) = self.lines[i];
            if rem < cnt || i == n - 1 {
                return ln;
            }
            proof {
                let suffix = self.lines@.subrange(i as int, n as int);
                assert(suffix.subrange(1, suffix.len() as int) =~= self.lines@.subrange(
                    i + 1,
                    n as int,
                ));
            }
            rem = rem - cnt;
            i = i + 1;
        }
    }
}

/// The byte sequence that pushes constant number `idx`.
pub open spec fn constant_instr(idx: int) -> Seq<u8> {
    if idx < 0xFF {
        seq![opcodes::CONSTANT, idx as u8]
    } else {
        seq![
            opcodes::CONSTANT_LONG,
            (idx % 256) as u8,
            ((idx / 256) % 256) as u8,
            ((idx / 65536) % 256) as u8,
        ]
    }
}

/// What the three global-variable emitters guarantee: on success, the name
/// was interned as a fresh string constant and the two-byte instruction was
/// appended; on failure the emitted program is unchanged.
pub open spec fn global_emit_post(
    pre: Chunk,
    post: Chunk,
    r: Result<(), CompileErr>,
    op: u8,
    name: Seq<char>,
    line: usize,
) -> bool {
    match r {
        Ok(()) => {
            &&& pre.constants@.len() <= 0xFF
            &&& post.objects@.len() == pre.objects@.len() + 1
            &&& post.objects@.last().contents@ == name
            &&& post.objects@.subrange(0, pre.objects@.len() as int) == pre.objects@
            &&& post.constants@ == pre.constants@.push(
                RuntimeValue::String(pre.objects@.len() as usize),
            )
            &&& post.code@ == pre.code@ + seq![op, pre.constants@.len() as u8]
            &&& post.lines@ == rle_push(pre.lines@, line, 2)
        },
        Err(e) => {
            &&& e == CompileErr::TooManyConstants
            &&& pre.constants@.len() > 0xFF
            &&& post.code == pre.code
            &&& post.constants == pre.constants
            &&& post.lines == pre.lines
            &&& post.objects == pre.objects
        },
    }
}

/// The bodies of a chunk's heap objects, as character sequences.
pub open spec fn objects_view(objs: Seq<StringObj>) -> Seq<Seq<char>> {
    objs.map_values(|o: StringObj| o.contents@)
}

/// Appending one object appends its body to the object-list view.
pub proof fn lemma_objects_view_push(pre: Seq<StringObj>, post: Seq<StringObj>, body: Seq<char>)
    requires
        post.len() == pre.len() + 1,
        post.subrange(0, pre.len() as int) == pre,
        post.last().contents@ == body,
    ensures
        objects_view(post) == objects_view(pre).push(body),
{
    assert(forall|i: int| 0 <= i < pre.len() ==> #[trigger] post[i] == pre[i]) by {
        assert(forall|i: int|
            0 <= i < pre.len() ==> post.subrange(0, pre.len() as int)[i] == #[trigger] post[i]);
    }
    assert(objects_view(post) =~= objects_view(pre).push(body));
}

/// The emitted program only ever grows: `post` extends `pre` byte for
/// byte, and the constant pool and object list likewise. Single-pass
/// compilation never rewrites what it has already emitted.
pub open spec fn code_extends(pre: Chunk, post: Chunk) -> bool {
    &&& post.code@.len() >= pre.code@.len()
    &&& (forall|i: int| 0 <= i < pre.code@.len() ==> #[trigger] post.code@[i] == pre.code@[i])
    &&& post.constants@.len() >= pre.constants@.len()
    &&& (forall|i: int|
        0 <= i < pre.constants@.len() ==> #[trigger] post.constants@[i] == pre.constants@[i])
    &&& post.objects@.len() >= pre.objects@.len()
}

/// Line-map counts are never negative in sum.
proof fn lemma_lines_total_nonneg(lines: Seq<(usize, usize)>)
    ensures
        lines_total(lines) >= 0,
    decreases lines.len(),
{
    if lines.len() > 0 {
        lemma_lines_total_nonneg(lines.drop_last());
    }
}

/// The last run's count never exceeds the whole map's total.
proof fn lemma_last_le_total(lines: Seq<(usize, usize)>)
    requires
        lines.len() > 0,
    ensures
        lines.last().1 <= lines_total(lines),
    decreases lines.len(),
{
    lemma_lines_total_nonneg(lines.drop_last());
}

/// A well-formed stream stays well-formed when code is appended after it
/// and constants are appended to the pool, provided the appended code is
/// itself a well-formed stream.
proof fn lemma_stream_wf_extend(
    code1: Seq<u8>,
    consts1: Seq<RuntimeValue>,
    code2: Seq<u8>,
    consts2: Seq<RuntimeValue>,
    i: int,
)
    requires
        0 <= i <= code1.len(),
        stream_wf(code1, consts1, i),
        code1.len() <= code2.len(),
        code2.subrange(0, code1.len() as int) == code1,
        consts1.len() <= consts2.len(),
        consts2.subrange(0, consts1.len() as int) == consts1,
        stream_wf(code2, consts2, code1.len() as int),
    ensures
        stream_wf(code2, consts2, i),
    decreases code1.len() - i,
{
    assert(forall|j: int| 0 <= j < code1.len() ==> #[trigger] code2[j] == code1[j]) by {
        assert(forall|j: int|
            0 <= j < code1.len() ==> code2.subrange(0, code1.len() as int)[j] == #[trigger] code2[
                j
            ]);
    }
    assert(forall|j: int| 0 <= j < consts1.len() ==> #[trigger] consts2[j] == consts1[j]) by {
        assert(forall|j: int|
            0 <= j < consts1.len() ==> consts2.subrange(0, consts1.len() as int)[j]
                == #[trigger] consts2[j]);
    }
    if i < code1.len() {
        let op = code1[i];
        assert(instr_wf(code1, consts1, i));
        assert(instr_wf(code2, consts2, i));
        lemma_stream_wf_extend(code1, consts1, code2, consts2, i + instr_len(op));
    }
}

} // verus!
