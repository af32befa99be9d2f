//! The virtual machine: decodes and executes a chunk's bytecode over a
//! fixed-capacity value stack, a global-variable table, an owned object
//! list, and an output log of printed values.
//!
//! The machine's behaviour is pinned by a specification-level interpreter:
//! [`step`] gives the meaning of one instruction as a transformation of a
//! [`MState`], and [`run`] iterates it to a halt or an error. `execute`
//! is proved to produce exactly `run`'s outcome. Execution of a well-formed
//! chunk never panics: every stack access is checked (underflow and
//! overflow are runtime errors), and decoding is total because chunks keep
//! their instruction stream well-formed.

use crate::bytecode::{constants_wf, instr_wf, opcodes, stream_wf, value_wf, Chunk};
use crate::num::{add_bits, div_bits, mul_bits, sub_bits};
use crate::num::{num_add, num_div, num_mul, num_sub};
use crate::runtime_val::{eq_bits, falsy, gt_bits, lt_bits, negated_bits};
use crate::runtime_val::{num_eq, num_gt, num_lt, num_negate};
use crate::runtime_val::{RuntimeValue, StringObj};
use vstd::pervasive::unreached;
use vstd::prelude::*;

verus! {

/// The value stack holds at most this many values.
pub const STACK_SIZE: usize = 0xFF;

/// Runtime failures. Every one aborts execution.
#[derive(Debug, Clone, Copy, PartialEq, Eq, Structural)]
pub enum LoxRuntimeErr {
    InvalidType,
    MissingOperand,
    StackOverflow,
    StackUnderflow,
    UndefinedGlobal,
}

/// The specification-level machine state: instruction pointer, value
/// stack (top last), the bodies of the heap objects, the global table as
/// an association sequence (insertion order), and the values printed so
/// far.
#[verifier::ext_equal]
pub ghost struct MState {
    pub ip: int,
    pub stack: Seq<RuntimeValue>,
    pub objs: Seq<Seq<char>>,
    pub globals: Seq<(Seq<char>, RuntimeValue)>,
    pub output: Seq<RuntimeValue>,
}

/// One instruction either continues in a new state or stops, normally or
/// with an error.
#[verifier::ext_equal]
pub ghost enum StepResult {
    Next(MState),
    Done(MState, Result<(), LoxRuntimeErr>),
}

/// The outcome of running to completion: the final state and the result.
#[verifier::ext_equal]
pub ghost struct RunOutcome {
    pub state: MState,
    pub result: Result<(), LoxRuntimeErr>,
}

/// The index of the first entry with key `k`, scanning from the front.
pub open spec fn assoc_find(g: Seq<(Seq<char>, RuntimeValue)>, k: Seq<char>) -> Option<int>
    decreases g.len(),
{
    if g.len() == 0 {
        None
    } else if g[0].0 == k {
        Some(0)
    } else {
        match assoc_find(g.subrange(1, g.len() as int), k) {
            None => None,
            Some(i) => Some(i + 1),
        }
    }
}

/// What `assoc_find` means, entry by entry.
pub proof fn lemma_assoc_find(g: Seq<(Seq<char>, RuntimeValue)>, k: Seq<char>)
    ensures
        match assoc_find(g, k) {
            Some(i) => {
                &&& 0 <= i < g.len()
                &&& g[i].0 == k
                &&& forall|j: int| 0 <= j < i ==> (#[trigger] g[j]).0 != k
            },
            None => forall|j: int| 0 <= j < g.len() ==> (#[trigger] g[j]).0 != k,
        },
    decreases g.len(),
{
    if g.len() > 0 {
        let rest = g.subrange(1, g.len() as int);
        lemma_assoc_find(rest, k);
        assert(forall|j: int| 0 <= j < rest.len() ==> #[trigger] rest[j] == g[j + 1]);
        if g[0].0 != k {
            match assoc_find(rest, k) {
                Some(i) => {
                    assert(g[i + 1].0 == k);
                    assert(forall|j: int|
                        1 <= j < i + 1 ==> (#[trigger] g[j]).0 == rest[j - 1].0);
                },
                None => {
                    assert(forall|j: int|
                        1 <= j < g.len() ==> (#[trigger] g[j]).0 == rest[j - 1].0);
                },
            }
        }
    }
}

/// Language-level equality: `nil` equals `nil`, booleans by value, numbers
/// by IEEE-754 `==` (so NaN equals nothing), strings by body contents (not
/// handle identity); values of different types are never equal.
pub open spec fn values_equal_spec(
    a: RuntimeValue,
    b: RuntimeValue,
    objs: Seq<Seq<char>>,
) -> bool {
    match (a, b) {
        (RuntimeValue::Nil, RuntimeValue::Nil) => true,
        (RuntimeValue::Bool(x), RuntimeValue::Bool(y)) => x == y,
        (RuntimeValue::Number(x), RuntimeValue::Number(y)) => eq_bits(x, y),
        (RuntimeValue::String(h1), RuntimeValue::String(h2)) => objs[h1 as int] == objs[
            h2 as int
        ],
        _ => false,
    }
}

/// Push onto the spec stack, or stop with `StackOverflow`.
pub open spec fn step_push(st: MState, v: RuntimeValue) -> StepResult {
    if st.stack.len() < STACK_SIZE {
        StepResult::Next(MState { stack: st.stack.push(v), ..st })
    } else {
        StepResult::Done(st, Err(LoxRuntimeErr::StackOverflow))
    }
}

/// Replace the two topmost values by one: the binary-operator shape.
pub open spec fn stack_replace2(stack: Seq<RuntimeValue>, v: RuntimeValue) -> Seq<
    RuntimeValue,
> {
    stack.subrange(0, stack.len() - 2).push(v)
}

/// The meaning of the instruction at `st.ip` (which must be in range).
/// Decoding that runs past the end of the code, or an unknown opcode,
/// halts; a well-formed chunk never reaches either.
pub open spec fn step(code: Seq<u8>, consts: Seq<RuntimeValue>, st: MState) -> StepResult {
    let op = code[st.ip];
    if op == opcodes::RETURN {
        StepResult::Done(MState { ip: st.ip + 1, ..st }, Ok(()))
    } else if op == opcodes::CONSTANT || op == opcodes::CONSTANT_LONG {
        let width: int = if op == opcodes::CONSTANT {
            2
        } else {
            4
        };
        if st.ip + width > code.len() {
            StepResult::Done(st, Ok(()))
        } else {
            let idx: int = if op == opcodes::CONSTANT {
                code[st.ip + 1] as int
            } else {
                crate::bytecode::le24(code, st.ip + 1)
            };
            step_push(MState { ip: st.ip + width, ..st }, consts[idx])
        }
    } else if op == opcodes::NIL {
        step_push(MState { ip: st.ip + 1, ..st }, RuntimeValue::Nil)
    } else if op == opcodes::TRUE {
        step_push(MState { ip: st.ip + 1, ..st }, RuntimeValue::Bool(true))
    } else if op == opcodes::FALSE {
        step_push(MState { ip: st.ip + 1, ..st }, RuntimeValue::Bool(false))
    } else if op == opcodes::POP {
        let st1 = MState { ip: st.ip + 1, ..st };
        if st.stack.len() >= 1 {
            StepResult::Next(MState { stack: st.stack.drop_last(), ..st1 })
        } else {
            StepResult::Done(st1, Err(LoxRuntimeErr::StackUnderflow))
        }
    } else if op == opcodes::GET_LOCAL {
        if st.ip + 2 > code.len() {
            StepResult::Done(st, Ok(()))
        } else {
            let slot = code[st.ip + 1] as int;
            let st1 = MState { ip: st.ip + 2, ..st };
            if slot < st.stack.len() {
                step_push(st1, st.stack[slot])
            } else {
                StepResult::Done(st1, Err(LoxRuntimeErr::StackUnderflow))
            }
        }
    } else if op == opcodes::SET_LOCAL {
        if st.ip + 2 > code.len() {
            StepResult::Done(st, Ok(()))
        } else {
            let slot = code[st.ip + 1] as int;
            let st1 = MState { ip: st.ip + 2, ..st };
            if st.stack.len() >= 1 && slot < st.stack.len() {
                StepResult::Next(
                    MState { stack: st.stack.update(slot, st.stack.last()), ..st1 },
                )
            } else {
                StepResult::Done(st1, Err(LoxRuntimeErr::StackUnderflow))
            }
        }
    } else if op == opcodes::GET_GLOBAL || op == opcodes::DEFINE_GLOBAL || op
        == opcodes::SET_GLOBAL {
        if st.ip + 2 > code.len() {
            StepResult::Done(st, Ok(()))
        } else {
            let st1 = MState { ip: st.ip + 2, ..st };
            match consts[code[st.ip + 1] as int] {
                RuntimeValue::String(h) => {
                    let name = st.objs[h as int];
                    if op == opcodes::GET_GLOBAL {
                        match assoc_find(st.globals, name) {
                            Some(i) => step_push(st1, st.globals[i].1),
                            None => StepResult::Done(
                                st1,
                                Err(LoxRuntimeErr::UndefinedGlobal),
                            ),
                        }
                    } else if st.stack.len() < 1 {
                        StepResult::Done(st1, Err(LoxRuntimeErr::StackUnderflow))
                    } else if op == opcodes::DEFINE_GLOBAL {
                        let v = st.stack.last();
                        let globals2 = match assoc_find(st.globals, name) {
                            Some(i) => st.globals.update(i, (name, v)),
                            None => st.globals.push((name, v)),
                        };
                        StepResult::Next(
                            MState { stack: st.stack.drop_last(), globals: globals2, ..st1 },
                        )
                    } else {
                        let v = st.stack.last();
                        match assoc_find(st.globals, name) {
                            Some(i) => StepResult::Next(
                                MState { globals: st.globals.update(i, (name, v)), ..st1 },
                            ),
                            None => StepResult::Done(
                                st1,
                                Err(LoxRuntimeErr::UndefinedGlobal),
                            ),
                        }
                    }
                },
                _ => StepResult::Done(st1, Ok(())),
            }
        }
    } else if op == opcodes::EQUAL {
        let st1 = MState { ip: st.ip + 1, ..st };
        if st.stack.len() >= 2 {
            let a = st.stack[st.stack.len() - 2];
            let b = st.stack.last();
            StepResult::Next(
                MState {
                    stack: stack_replace2(
                        st.stack,
                        RuntimeValue::Bool(values_equal_spec(a, b, st.objs)),
                    ),
                    ..st1
                },
            )
        } else {
            StepResult::Done(st1, Err(LoxRuntimeErr::StackUnderflow))
        }
    } else if op == opcodes::GREATER || op == opcodes::LESS || op == opcodes::SUBTRACT || op
        == opcodes::MULTIPLY || op == opcodes::DIVIDE {
        let st1 = MState { ip: st.ip + 1, ..st };
        if st.stack.len() >= 2 {
            match (st.stack[st.stack.len() - 2], st.stack.last()) {
                (RuntimeValue::Number(x), RuntimeValue::Number(y)) => {
                    let v = if op == opcodes::GREATER {
                        RuntimeValue::Bool(gt_bits(x, y))
                    } else if op == opcodes::LESS {
                        RuntimeValue::Bool(lt_bits(x, y))
                    } else if op == opcodes::SUBTRACT {
                        RuntimeValue::Number(sub_bits(x, y))
                    } else if op == opcodes::MULTIPLY {
                        RuntimeValue::Number(mul_bits(x, y))
                    } else {
                        RuntimeValue::Number(div_bits(x, y))
                    };
                    StepResult::Next(MState { stack: stack_replace2(st.stack, v), ..st1 })
                },
                _ => StepResult::Done(st1, Err(LoxRuntimeErr::InvalidType)),
            }
        } else {
            StepResult::Done(st1, Err(LoxRuntimeErr::StackUnderflow))
        }
    } else if op == opcodes::ADD {
        let st1 = MState { ip: st.ip + 1, ..st };
        if st.stack.len() >= 2 {
            match (st.stack[st.stack.len() - 2], st.stack.last()) {
                (RuntimeValue::Number(x), RuntimeValue::Number(y)) => StepResult::Next(
                    MState {
                        stack: stack_replace2(st.stack, RuntimeValue::Number(add_bits(x, y))),
                        ..st1
                    },
                ),
                (RuntimeValue::String(h1), RuntimeValue::String(h2)) => {
                    let body = st.objs[h1 as int] + st.objs[h2 as int];
                    StepResult::Next(
                        MState {
                            stack: stack_replace2(
                                st.stack,
                                RuntimeValue::String(st.objs.len() as usize),
                            ),
                            objs: st.objs.push(body),
                            ..st1
                        },
                    )
                },
                _ => StepResult::Done(st1, Err(LoxRuntimeErr::InvalidType)),
            }
        } else {
            StepResult::Done(st1, Err(LoxRuntimeErr::StackUnderflow))
        }
    } else if op == opcodes::NOT {
        let st1 = MState { ip: st.ip + 1, ..st };
        if st.stack.len() >= 1 {
            let v = RuntimeValue::Bool(falsy(st.stack.last()));
            StepResult::Next(
                MState { stack: st.stack.update(st.stack.len() - 1, v), ..st1 },
            )
        } else {
            StepResult::Done(st1, Err(LoxRuntimeErr::StackUnderflow))
        }
    } else if op == opcodes::NEGATE {
        let st1 = MState { ip: st.ip + 1, ..st };
        if st.stack.len() >= 1 {
            match st.stack.last() {
                RuntimeValue::Number(x) => StepResult::Next(
                    MState {
                        stack: st.stack.update(
                            st.stack.len() - 1,
                            RuntimeValue::Number(negated_bits(x)),
                        ),
                        ..st1
                    },
                ),
                RuntimeValue::Nil => StepResult::Done(
                    st1,
                    Err(LoxRuntimeErr::MissingOperand),
                ),
                _ => StepResult::Done(st1, Err(LoxRuntimeErr::InvalidType)),
            }
        } else {
            StepResult::Done(st1, Err(LoxRuntimeErr::StackUnderflow))
        }
    } else if op == opcodes::PRINT {
        let st1 = MState { ip: st.ip + 1, ..st };
        if st.stack.len() >= 1 {
            StepResult::Next(
                MState {
                    stack: st.stack.drop_last(),
                    output: st.output.push(st.stack.last()),
                    ..st1
                },
            )
        } else {
            StepResult::Done(st1, Err(LoxRuntimeErr::StackUnderflow))
        }
    } else {
        StepResult::Done(st, Ok(()))
    }
}

/// The contents views of an object list.
pub open spec fn objs_view(objs: Seq<StringObj>) -> Seq<Seq<char>> {
    objs.map_values(|o: StringObj| o.contents@)
}

/// The view of the global table: keys as character sequences.
pub open spec fn globals_view(g: Seq<(String, RuntimeValue)>) -> Seq<
    (Seq<char>, RuntimeValue),
> {
    g.map_values(|p: (String, RuntimeValue)| (p.0@, p.1))
}

/// Run from `st` until the code ends, `RETURN` executes, or an error
/// stops the machine.
pub open spec fn run(code: Seq<u8>, consts: Seq<RuntimeValue>, st: MState) -> RunOutcome
    decreases code.len() - st.ip,
{
    if !(0 <= st.ip < code.len()) {
        RunOutcome { state: st, result: Ok(()) }
    } else {
        match step(code, consts, st) {
            StepResult::Next(st2) => {
                if st.ip < st2.ip <= code.len() {
                    run(code, consts, st2)
                } else {
                    RunOutcome { state: st2, result: Ok(()) }
                }
            },
            StepResult::Done(st2, r) => RunOutcome { state: st2, result: r },
        }
    }
}


/// The virtual machine. It owns the chunk it executes, every heap object
/// (the compile-time ones are taken over from the chunk at construction,
/// and concatenation results join them), the global table, and the log of
/// printed values.
pub struct Vm {
    chunk: Chunk,
    ip: usize,
    stack: Vec<RuntimeValue>,
    objects: Vec<StringObj>,
    globals: Vec<(String, RuntimeValue)>,
    output: Vec<RuntimeValue>,
}

impl Vm {
    /// The machine state as seen by the specification interpreter, with
    /// the instruction pointer taken to be `ip`.
    pub closed spec fn mstate_at(self, ip: int) -> MState {
        MState {
            ip,
            stack: self.stack@,
            objs: objs_view(self.objects@),
            globals: globals_view(self.globals@),
            output: self.output@,
        }
    }

    /// The machine state as seen by the specification interpreter.
    pub closed spec fn mstate(self) -> MState {
        self.mstate_at(self.ip as int)
    }

    pub closed spec fn spec_code(self) -> Seq<u8> {
        self.chunk.code@
    }

    pub closed spec fn spec_consts(self) -> Seq<RuntimeValue> {
        self.chunk.constants@
    }

    /// Data invariants: the stack never holds more than `STACK_SIZE`
    /// values, and every string handle anywhere in the machine points into
    /// the object list.
    pub closed spec fn wf_data(self) -> bool {
        &&& constants_wf(self.chunk.constants@, self.objects@.len() as int)
        &&& self.stack@.len() <= STACK_SIZE
        &&& (forall|i: int|
            0 <= i < self.stack@.len() ==> value_wf(
                #[trigger] self.stack@[i],
                self.objects@.len() as int,
            ))
        &&& (forall|i: int|
            0 <= i < self.globals@.len() ==> value_wf(
                (#[trigger] self.globals@[i]).1,
                self.objects@.len() as int,
            ))
        &&& (forall|i: int|
            0 <= i < self.output@.len() ==> value_wf(
                #[trigger] self.output@[i],
                self.objects@.len() as int,
            ))
    }

    /// Full invariant: data invariants plus a decodable instruction stream
    /// from the current instruction pointer.
    pub closed spec fn wf(self) -> bool {
        &&& self.wf_data()
        &&& stream_wf(self.chunk.code@, self.chunk.constants@, self.ip as int)
    }

    /// Take ownership of a compiled chunk. The chunk's heap objects are
    /// moved onto the machine's own object list (the constants' handles
    /// are preserved); the stack, global table and output start empty.
    pub fn new(chunk: Chunk) -> (vm: Vm)
        requires
            chunk.wf(),
        ensures
            vm.wf(),
            vm.spec_code() == chunk.code@,
            vm.spec_consts() == chunk.constants@,
            vm.mstate() == (MState {
                ip: 0,
                stack: Seq::<RuntimeValue>::empty(),
                objs: objs_view(chunk.objects@),
                globals: Seq::<(Seq<char>, RuntimeValue)>::empty(),
                output: Seq::<RuntimeValue>::empty(),
            }),
    {
        let Chunk { code, constants, lines, objects } = chunk;
        let vm = Vm {
            chunk: Chunk { code, constants, lines, objects: Vec::new() },
            ip: 0,
            stack: Vec::new(),
            objects,
            globals: Vec::new(),
            output: Vec::new(),
        };
        proof {
            assert(globals_view(vm.globals@) =~= Seq::<(Seq<char>, RuntimeValue)>::empty());
            assert(vm.mstate() =~~= (MState {
                ip: 0,
                stack: Seq::<RuntimeValue>::empty(),
                objs: objs_view(chunk.objects@),
                globals: Seq::<(Seq<char>, RuntimeValue)>::empty(),
                output: Seq::<RuntimeValue>::empty(),
            }));
        }
        vm
    }

    /// The values printed so far, in order.
    pub fn output(&self) -> (r: &Vec<RuntimeValue>)
        ensures
            r@ == self.mstate().output,
    {
        &self.output
    }

    /// The heap object behind a string handle, if the handle is valid.
    pub fn object(&self, h: usize) -> (r: Option<&StringObj>)
        ensures
            match r {
                Some(o) => h < self.mstate().objs.len() && o.contents@ == self.mstate().objs[
                    h as int
                ],
                None => h >= self.mstate().objs.len(),
            },
    {
        if h < self.objects.len() {
            Some(&self.objects[h])
        } else {
            None
        }
    }

    /// The source line attributed to the current instruction pointer.
    pub fn current_line(&self) -> (line: usize)
        ensures
            line == crate::bytecode::line_at_spec(self.spec_chunk().lines@, self.spec_ip()),
    {
        self.chunk.get_line_at_ip(self.ip)
    }

    /// Fetch the byte at the instruction pointer and advance past it.
    fn read_byte(&mut self) -> (b: u8)
        requires
            old(self).ip < old(self).chunk.code@.len(),
        ensures
            b == old(self).chunk.code@[old(self).ip as int],
            final(self).ip == old(self).ip + 1,
            final(self).chunk == old(self).chunk,
            final(self).stack == old(self).stack,
            final(self).objects == old(self).objects,
            final(self).globals == old(self).globals,
            final(self).output == old(self).output,
    {
        let n = self.chunk.code.len();
        let val = self.chunk.code[self.ip];
        self.ip = self.ip + 1;
        val
    }

    /// Push a value, or fail with `StackOverflow` when the stack is full.
    fn push(&mut self, val: RuntimeValue) -> (r: Result<(), LoxRuntimeErr>)
        ensures
            final(self).chunk == old(self).chunk,
            final(self).ip == old(self).ip,
            final(self).objects == old(self).objects,
            final(self).globals == old(self).globals,
            final(self).output == old(self).output,
            match r {
                Ok(()) => old(self).stack@.len() < STACK_SIZE && final(self).stack@ == old(
                    self,
                ).stack@.push(val),
                Err(e) => {
                    &&& e == LoxRuntimeErr::StackOverflow
                    &&& old(self).stack@.len() >= STACK_SIZE
                    &&& final(self).stack == old(self).stack
                },
            },
    {
        if self.stack.len() < STACK_SIZE {
            self.stack.push(val);
            Ok(())
        } else {
            Err(LoxRuntimeErr::StackOverflow)
        }
    }

    /// Pop the top of the stack, or fail with `StackUnderflow`.
    fn pop(&mut self) -> (r: Result<RuntimeValue, LoxRuntimeErr>)
        ensures
            final(self).chunk == old(self).chunk,
            final(self).ip == old(self).ip,
            final(self).objects == old(self).objects,
            final(self).globals == old(self).globals,
            final(self).output == old(self).output,
            match r {
                Ok(v) => {
                    &&& old(self).stack@.len() >= 1
                    &&& v == old(self).stack@.last()
                    &&& final(self).stack@ == old(self).stack@.drop_last()
                },
                Err(e) => {
                    &&& e == LoxRuntimeErr::StackUnderflow
                    &&& old(self).stack@.len() == 0
                    &&& final(self).stack@ == old(self).stack@
                },
            },
    {
        match self.stack.pop() {
            Some(v) => {
                proof {
                    assert(self.stack@ =~= old(self).stack@.drop_last());
                }
                Ok(v)
            },
            None => Err(LoxRuntimeErr::StackUnderflow),
        }
    }

    /// The value `distance` slots below the free slot (1 is the top), or
    /// `StackUnderflow` when the stack is shallower than that.
    fn peek(&self, distance: usize) -> (r: Result<RuntimeValue, LoxRuntimeErr>)
        requires
            1 <= distance,
        ensures
            match r {
                Ok(v) => distance <= self.stack@.len() && v == self.stack@[self.stack@.len()
                    - distance],
                Err(e) => e == LoxRuntimeErr::StackUnderflow && self.stack@.len() < distance,
            },
    {
        if distance <= self.stack.len() {
            Ok(self.stack[self.stack.len() - distance])
        } else {
            Err(LoxRuntimeErr::StackUnderflow)
        }
    }

    /// Language-level equality of two values (string handles compare by
    /// body contents).
    fn values_equal(&self, a: RuntimeValue, b: RuntimeValue) -> (r: bool)
        requires
            value_wf(a, self.objects@.len() as int),
            value_wf(b, self.objects@.len() as int),
        ensures
            r == values_equal_spec(a, b, objs_view(self.objects@)),
    {
        match (a, b) {
            (RuntimeValue::Nil, RuntimeValue::Nil) => true,
            (RuntimeValue::Bool(x), RuntimeValue::Bool(y)) => x == y,
            (RuntimeValue::Number(x), RuntimeValue::Number(y)) => num_eq(x, y),
            (RuntimeValue::String(h1), RuntimeValue::String(h2)) => {
                let x = &self.objects[h1].contents;
                let y = &self.objects[h2].contents;
                x.eq(y)
            },
            _ => false,
        }
    }

    /// Truthiness: `nil` and `false` are falsy; everything else is truthy.
    fn is_falsy(val: RuntimeValue) -> (r: bool)
        ensures
            r == falsy(val),
    {
        match val {
            RuntimeValue::Nil => true,
            RuntimeValue::Bool(b) => !b,
            _ => false,
        }
    }

    /// The index of the first global whose name equals the body of object
    /// `h`, scanning in insertion order.
    fn find_global(&self, h: usize) -> (r: Option<usize>)
        requires
            h < self.objects@.len(),
        ensures
            match r {
                Some(i) => {
                    &&& i < self.globals@.len()
                    &&& assoc_find(globals_view(self.globals@), objs_view(self.objects@)[
                        h as int
                    ]) == Some(i as int)
                },
                None => assoc_find(
                    globals_view(self.globals@),
                    objs_view(self.objects@)[h as int],
                ) is None,
            },
    {
        let name = self.objects[h].as_str();
        let ghost g = globals_view(self.globals@);
        let ghost k = objs_view(self.objects@)[h as int];
        let n = self.globals.len();
        let mut i: usize = 0;
        while i < n
            invariant
                h < self.objects@.len(),
                n == self.globals@.len(),
                i <= n,
                g == globals_view(self.globals@),
                k == name@,
                k == objs_view(self.objects@)[h as int],
                name@ == self.objects@[h as int].contents@,
                forall|j: int| 0 <= j < i ==> (#[trigger] g[j]).0 != k,
            decreases n - i,
        {
            if str_eq(name, self.globals[i].0.as_str()) {
                proof {
                    assert(g[i as int] == (self.globals@[i as int].0@, self.globals@[i as int].1));
                    assert(g[i as int].0 == k);
                    lemma_assoc_find(g, k);
                    match assoc_find(g, k) {
                        None => {
                            assert(false);
                        },
                        Some(ii) => {
                            if ii < i as int {
                                assert(g[ii].0 != k);
                                assert(false);
                            }
                            if ii > i as int {
                                assert(g[i as int].0 != k);
                                assert(false);
                            }
                        },
                    }
                    assert(objs_view(self.objects@)[h as int] == self.objects@[
                        h as int
                    ].contents@);
                }
                return Some(i);
            }
            proof {
                assert(g[i as int] == (self.globals@[i as int].0@, self.globals@[i as int].1));
                assert(g[i as int].0 == self.globals@[i as int].0@);
            }
            i = i + 1;
        }
        proof {
            lemma_assoc_find(g, k);
            match assoc_find(g, k) {
                None => {},
                Some(j) => {
                    assert(g[j].0 == k);
                    assert(false);
                },
            }
            assert(objs_view(self.objects@)[h as int] == self.objects@[h as int].contents@);
        }
        None
    }
}

/// What every opcode handler guarantees. A handler is entered with the
/// instruction pointer just past the opcode byte; it performs exactly the
/// transformation that [`step`] ascribes to the instruction that starts
/// one byte earlier, continuing on `Ok` and stopping on `Err`.
pub open spec fn step_post(pre: Vm, post: Vm, r: Result<(), LoxRuntimeErr>) -> bool {
    &&& post.spec_chunk() == pre.spec_chunk()
    &&& post.wf_data()
    &&& match r {
        Ok(()) => step(pre.spec_code(), pre.spec_consts(), pre.mstate_at(pre.spec_ip() - 1))
            == StepResult::Next(post.mstate()),
        Err(e) => step(pre.spec_code(), pre.spec_consts(), pre.mstate_at(pre.spec_ip() - 1))
            == StepResult::Done(post.mstate(), Err(e)),
    }
}

/// A value valid for `n` objects is valid for any longer object list.
proof fn lemma_value_wf_mono(v: RuntimeValue, n: int, m: int)
    requires
        value_wf(v, n),
        n <= m,
    ensures
        value_wf(v, m),
{
}

impl Vm {
    pub closed spec fn spec_chunk(self) -> Chunk {
        self.chunk
    }

    pub closed spec fn spec_ip(self) -> int {
        self.ip as int
    }

    /// `CONSTANT`: push the pool value named by the 1-byte operand.
    fn constant(&mut self) -> (r: Result<(), LoxRuntimeErr>)
        requires
            old(self).wf_data(),
            1 <= old(self).ip,
            instr_wf(old(self).chunk.code@, old(self).chunk.constants@, old(self).ip - 1),
            old(self).chunk.code@[old(self).ip - 1] == opcodes::CONSTANT,
        ensures
            step_post(*old(self), *final(self), r),
    {
        let idx = self.read_byte();
        let val = self.chunk.constants[idx as usize];
        let r = self.push(val);
        proof {
            let pre = old(self).mstate_at(old(self).ip - 1);
            match r {
                Ok(()) => {
                    assert(step(old(self).chunk.code@, old(self).chunk.constants@, pre)
                        =~~= StepResult::Next(self.mstate()));
                },
                Err(e) => {
                    assert(step(old(self).chunk.code@, old(self).chunk.constants@, pre)
                        =~~= StepResult::Done(self.mstate(), Err(e)));
                },
            }
        }
        r
    }

    /// `CONSTANT_LONG`: push the pool value named by the 3-byte
    /// little-endian operand.
    fn constant_long(&mut self) -> (r: Result<(), LoxRuntimeErr>)
        requires
            old(self).wf_data(),
            1 <= old(self).ip,
            instr_wf(old(self).chunk.code@, old(self).chunk.constants@, old(self).ip - 1),
            old(self).chunk.code@[old(self).ip - 1] == opcodes::CONSTANT_LONG,
        ensures
            step_post(*old(self), *final(self), r),
    {
        let b0 = self.read_byte();
        let b1 = self.read_byte();
        let b2 = self.read_byte();
        let idx: usize = (b0 as usize) + 256 * (b1 as usize) + 65536 * (b2 as usize);
        let val = self.chunk.constants[idx];
        let r = self.push(val);
        proof {
            let pre = old(self).mstate_at(old(self).ip - 1);
            assert(idx as int == crate::bytecode::le24(
                old(self).chunk.code@,
                old(self).ip as int,
            ));
            match r {
                Ok(()) => {
                    assert(step(old(self).chunk.code@, old(self).chunk.constants@, pre)
                        =~~= StepResult::Next(self.mstate()));
                },
                Err(e) => {
                    assert(step(old(self).chunk.code@, old(self).chunk.constants@, pre)
                        =~~= StepResult::Done(self.mstate(), Err(e)));
                },
            }
        }
        r
    }

    /// `GET_LOCAL`: push the value in the stack slot named by the operand.
    fn get_local(&mut self) -> (r: Result<(), LoxRuntimeErr>)
        requires
            old(self).wf_data(),
            1 <= old(self).ip,
            instr_wf(old(self).chunk.code@, old(self).chunk.constants@, old(self).ip - 1),
            old(self).chunk.code@[old(self).ip - 1] == opcodes::GET_LOCAL,
        ensures
            step_post(*old(self), *final(self), r),
    {
        let slot = self.read_byte();
        if (slot as usize) < self.stack.len() {
            let v = self.stack[slot as usize];
            let r = self.push(v);
            proof {
                let pre = old(self).mstate_at(old(self).ip - 1);
                match r {
                    Ok(()) => {
                        assert(step(old(self).chunk.code@, old(self).chunk.constants@, pre)
                            =~~= StepResult::Next(self.mstate()));
                    },
                    Err(e) => {
                        assert(step(old(self).chunk.code@, old(self).chunk.constants@, pre)
                            =~~= StepResult::Done(self.mstate(), Err(e)));
                    },
                }
            }
            r
        } else {
            proof {
                let pre = old(self).mstate_at(old(self).ip - 1);
                assert(step(old(self).chunk.code@, old(self).chunk.constants@, pre)
                    =~~= StepResult::Done(
                    self.mstate(),
                    Err(LoxRuntimeErr::StackUnderflow),
                ));
            }
            Err(LoxRuntimeErr::StackUnderflow)
        }
    }

    /// `SET_LOCAL`: copy the top of the stack into the slot named by the
    /// operand, leaving the top in place.
    fn set_local(&mut self) -> (r: Result<(), LoxRuntimeErr>)
        requires
            old(self).wf_data(),
            1 <= old(self).ip,
            instr_wf(old(self).chunk.code@, old(self).chunk.constants@, old(self).ip - 1),
            old(self).chunk.code@[old(self).ip - 1] == opcodes::SET_LOCAL,
        ensures
            step_post(*old(self), *final(self), r),
    {
        let slot = self.read_byte();
        let n = self.stack.len();
        if n >= 1 && (slot as usize) < n {
            let top = self.stack[n - 1];
            self.stack.set(slot as usize, top);
            proof {
                let pre = old(self).mstate_at(old(self).ip - 1);
                assert(step(old(self).chunk.code@, old(self).chunk.constants@, pre)
                    =~~= StepResult::Next(self.mstate()));
            }
            Ok(())
        } else {
            proof {
                let pre = old(self).mstate_at(old(self).ip - 1);
                assert(step(old(self).chunk.code@, old(self).chunk.constants@, pre)
                    =~~= StepResult::Done(
                    self.mstate(),
                    Err(LoxRuntimeErr::StackUnderflow),
                ));
            }
            Err(LoxRuntimeErr::StackUnderflow)
        }
    }

    /// `GET_GLOBAL`: push the value of the global named by the string
    /// constant the operand points at, or fail with `UndefinedGlobal`.
    fn get_global(&mut self) -> (r: Result<(), LoxRuntimeErr>)
        requires
            old(self).wf_data(),
            1 <= old(self).ip,
            instr_wf(old(self).chunk.code@, old(self).chunk.constants@, old(self).ip - 1),
            old(self).chunk.code@[old(self).ip - 1] == opcodes::GET_GLOBAL,
        ensures
            step_post(*old(self), *final(self), r),
    {
        let cidx = self.read_byte();
        let h = match self.chunk.constants[cidx as usize] {
            RuntimeValue::String(h) => h,
            _ => unreached(),
        };
        match self.find_global(h) {
            Some(i) => {
                let v = self.globals[i].1;
                let r = self.push(v);
                proof {
                    let pre = old(self).mstate_at(old(self).ip - 1);
                    assert(globals_view(self.globals@)[i as int].1 == v);
                    match r {
                        Ok(()) => {
                            assert(step(old(self).chunk.code@, old(self).chunk.constants@, pre)
                                =~~= StepResult::Next(self.mstate()));
                        },
                        Err(e) => {
                            assert(step(old(self).chunk.code@, old(self).chunk.constants@, pre)
                                =~~= StepResult::Done(self.mstate(), Err(e)));
                        },
                    }
                }
                r
            },
            None => {
                proof {
                    let pre = old(self).mstate_at(old(self).ip - 1);
                    assert(step(old(self).chunk.code@, old(self).chunk.constants@, pre)
                        =~~= StepResult::Done(
                        self.mstate(),
                        Err(LoxRuntimeErr::UndefinedGlobal),
                    ));
                }
                Err(LoxRuntimeErr::UndefinedGlobal)
            },
        }
    }

    /// `DEFINE_GLOBAL`: pop the top of the stack and bind it to the name,
    /// overwriting an existing binding or appending a new one.
    fn define_global(&mut self) -> (r: Result<(), LoxRuntimeErr>)
        requires
            old(self).wf_data(),
            1 <= old(self).ip,
            instr_wf(old(self).chunk.code@, old(self).chunk.constants@, old(self).ip - 1),
            old(self).chunk.code@[old(self).ip - 1] == opcodes::DEFINE_GLOBAL,
        ensures
            step_post(*old(self), *final(self), r),
    {
        let cidx = self.read_byte();
        let h = match self.chunk.constants[cidx as usize] {
            RuntimeValue::String(h) => h,
            _ => unreached(),
        };
        let v = match self.pop() {
            Ok(v) => v,
            Err(e) => {
                proof {
                    let pre = old(self).mstate_at(old(self).ip - 1);
                    assert(step(old(self).chunk.code@, old(self).chunk.constants@, pre)
                        =~~= StepResult::Done(self.mstate(), Err(e)));
                }
                return Err(e);
            },
        };
        let ghost gv0 = globals_view(self.globals@);
        let key = self.objects[h].as_str().to_owned();
        match self.find_global(h) {
            Some(i) => {
                self.globals.set(i, (key, v));
                proof {
                    let pre = old(self).mstate_at(old(self).ip - 1);
                    let name = objs_view(old(self).objects@)[h as int];
                    assert(globals_view(self.globals@) =~= gv0.update(i as int, (name, v)));
                    assert(step(old(self).chunk.code@, old(self).chunk.constants@, pre)
                        =~~= StepResult::Next(self.mstate()));
                }
                Ok(())
            },
            None => {
                self.globals.push((key, v));
                proof {
                    let pre = old(self).mstate_at(old(self).ip - 1);
                    let name = objs_view(old(self).objects@)[h as int];
                    assert(globals_view(self.globals@) =~= gv0.push((name, v)));
                    assert(step(old(self).chunk.code@, old(self).chunk.constants@, pre)
                        =~~= StepResult::Next(self.mstate()));
                }
                Ok(())
            },
        }
    }

    /// `SET_GLOBAL`: overwrite an existing binding with the top of the
    /// stack, leaving the value on the stack; an unknown name is
    /// `UndefinedGlobal`.
    fn set_global(&mut self) -> (r: Result<(), LoxRuntimeErr>)
        requires
            old(self).wf_data(),
            1 <= old(self).ip,
            instr_wf(old(self).chunk.code@, old(self).chunk.constants@, old(self).ip - 1),
            old(self).chunk.code@[old(self).ip - 1] == opcodes::SET_GLOBAL,
        ensures
            step_post(*old(self), *final(self), r),
    {
        let cidx = self.read_byte();
        let h = match self.chunk.constants[cidx as usize] {
            RuntimeValue::String(h) => h,
            _ => unreached(),
        };
        let v = match self.peek(1) {
            Ok(v) => v,
            Err(e) => {
                proof {
                    let pre = old(self).mstate_at(old(self).ip - 1);
                    assert(step(old(self).chunk.code@, old(self).chunk.constants@, pre)
                        =~~= StepResult::Done(self.mstate(), Err(e)));
                }
                return Err(e);
            },
        };
        let ghost gv0 = globals_view(self.globals@);
        let key = self.objects[h].as_str().to_owned();
        match self.find_global(h) {
            Some(i) => {
                self.globals.set(i, (key, v));
                proof {
                    let pre = old(self).mstate_at(old(self).ip - 1);
                    let name = objs_view(old(self).objects@)[h as int];
                    assert(globals_view(self.globals@) =~= gv0.update(i as int, (name, v)));
                    assert(step(old(self).chunk.code@, old(self).chunk.constants@, pre)
                        =~~= StepResult::Next(self.mstate()));
                }
                Ok(())
            },
            None => {
                proof {
                    let pre = old(self).mstate_at(old(self).ip - 1);
                    assert(step(old(self).chunk.code@, old(self).chunk.constants@, pre)
                        =~~= StepResult::Done(
                        self.mstate(),
                        Err(LoxRuntimeErr::UndefinedGlobal),
                    ));
                }
                Err(LoxRuntimeErr::UndefinedGlobal)
            },
        }
    }

    /// `EQUAL`: replace the two topmost values by whether they are equal.
    fn equal(&mut self) -> (r: Result<(), LoxRuntimeErr>)
        requires
            old(self).wf_data(),
            1 <= old(self).ip <= old(self).chunk.code@.len(),
            old(self).chunk.code@[old(self).ip - 1] == opcodes::EQUAL,
        ensures
            step_post(*old(self), *final(self), r),
    {
        let first = match self.peek(2) {
            Ok(v) => v,
            Err(e) => {
                proof {
                    let pre = old(self).mstate_at(old(self).ip - 1);
                    assert(step(old(self).chunk.code@, old(self).chunk.constants@, pre)
                        =~~= StepResult::Done(self.mstate(), Err(e)));
                }
                return Err(e);
            },
        };
        let second = match self.peek(1) {
            Ok(v) => v,
            Err(_) => unreached(),
        };
        let eq = self.values_equal(first, second);
        let n = self.stack.len();
        self.stack.set(n - 2, RuntimeValue::Bool(eq));
        let _discard = self.stack.pop();
        proof {
            let pre = old(self).mstate_at(old(self).ip - 1);
            assert(self.stack@ =~= stack_replace2(old(self).stack@, RuntimeValue::Bool(eq)));
            assert(step(old(self).chunk.code@, old(self).chunk.constants@, pre)
                =~~= StepResult::Next(self.mstate()));
        }
        Ok(())
    }

    /// The shared shape of `GREATER`, `LESS`, `SUBTRACT`, `MULTIPLY` and
    /// `DIVIDE`: both operands must be numbers; the two topmost values are
    /// replaced by the operation's result.
    fn binary_num(&mut self, op: u8) -> (r: Result<(), LoxRuntimeErr>)
        requires
            old(self).wf_data(),
            1 <= old(self).ip <= old(self).chunk.code@.len(),
            old(self).chunk.code@[old(self).ip - 1] == op,
            op == opcodes::GREATER || op == opcodes::LESS || op == opcodes::SUBTRACT || op
                == opcodes::MULTIPLY || op == opcodes::DIVIDE,
        ensures
            step_post(*old(self), *final(self), r),
    {
        let first = match self.peek(2) {
            Ok(v) => v,
            Err(e) => {
                proof {
                    let pre = old(self).mstate_at(old(self).ip - 1);
                    assert(step(old(self).chunk.code@, old(self).chunk.constants@, pre)
                        =~~= StepResult::Done(self.mstate(), Err(e)));
                }
                return Err(e);
            },
        };
        let second = match self.peek(1) {
            Ok(v) => v,
            Err(_) => unreached(),
        };
        match (first, second) {
            (RuntimeValue::Number(x), RuntimeValue::Number(y)) => {
                let v = if op == opcodes::GREATER {
                    RuntimeValue::Bool(num_gt(x, y))
                } else if op == opcodes::LESS {
                    RuntimeValue::Bool(num_lt(x, y))
                } else if op == opcodes::SUBTRACT {
                    RuntimeValue::Number(num_sub(x, y))
                } else if op == opcodes::MULTIPLY {
                    RuntimeValue::Number(num_mul(x, y))
                } else {
                    RuntimeValue::Number(num_div(x, y))
                };
                let n = self.stack.len();
                self.stack.set(n - 2, v);
                let _discard = self.stack.pop();
                proof {
                    let pre = old(self).mstate_at(old(self).ip - 1);
                    assert(self.stack@ =~= stack_replace2(old(self).stack@, v));
                    assert(step(old(self).chunk.code@, old(self).chunk.constants@, pre)
                        =~~= StepResult::Next(self.mstate()));
                }
                Ok(())
            },
            _ => {
                proof {
                    let pre = old(self).mstate_at(old(self).ip - 1);
                    assert(step(old(self).chunk.code@, old(self).chunk.constants@, pre)
                        =~~= StepResult::Done(
                        self.mstate(),
                        Err(LoxRuntimeErr::InvalidType),
                    ));
                }
                Err(LoxRuntimeErr::InvalidType)
            },
        }
    }

    /// `ADD`: numbers add; strings concatenate onto a fresh object that
    /// joins the object list; anything else is `InvalidType`.
    fn add(&mut self) -> (r: Result<(), LoxRuntimeErr>)
        requires
            old(self).wf_data(),
            1 <= old(self).ip <= old(self).chunk.code@.len(),
            old(self).chunk.code@[old(self).ip - 1] == opcodes::ADD,
        ensures
            step_post(*old(self), *final(self), r),
    {
        let first = match self.peek(2) {
            Ok(v) => v,
            Err(e) => {
                proof {
                    let pre = old(self).mstate_at(old(self).ip - 1);
                    assert(step(old(self).chunk.code@, old(self).chunk.constants@, pre)
                        =~~= StepResult::Done(self.mstate(), Err(e)));
                }
                return Err(e);
            },
        };
        let second = match self.peek(1) {
            Ok(v) => v,
            Err(_) => unreached(),
        };
        match (first, second) {
            (RuntimeValue::Number(x), RuntimeValue::Number(y)) => {
                let v = RuntimeValue::Number(num_add(x, y));
                let n = self.stack.len();
                self.stack.set(n - 2, v);
                let _discard = self.stack.pop();
                proof {
                    let pre = old(self).mstate_at(old(self).ip - 1);
                    assert(self.stack@ =~= stack_replace2(old(self).stack@, v));
                    assert(step(old(self).chunk.code@, old(self).chunk.constants@, pre)
                        =~~= StepResult::Next(self.mstate()));
                }
                Ok(())
            },
            (RuntimeValue::String(h1), RuntimeValue::String(h2)) => {
                let new_obj = {
                    let a = &self.objects[h1];
                    let b = &self.objects[h2];
                    a.concat(b)
                };
                let handle = self.objects.len();
                self.objects.push(new_obj);
                let n = self.stack.len();
                self.stack.set(n - 2, RuntimeValue::String(handle));
                let _discard = self.stack.pop();
                proof {
                    let pre = old(self).mstate_at(old(self).ip - 1);
                    assert(objs_view(self.objects@) =~= objs_view(old(self).objects@).push(
                        objs_view(old(self).objects@)[h1 as int] + objs_view(
                            old(self).objects@,
                        )[h2 as int],
                    ));
                    assert(self.stack@ =~= stack_replace2(
                        old(self).stack@,
                        RuntimeValue::String(handle),
                    ));
                    assert forall|i: int| 0 <= i < self.stack@.len() implies value_wf(
                        #[trigger] self.stack@[i],
                        self.objects@.len() as int,
                    ) by {
                        if i < self.stack@.len() - 1 {
                            lemma_value_wf_mono(
                                self.stack@[i],
                                old(self).objects@.len() as int,
                                self.objects@.len() as int,
                            );
                        }
                    }
                    assert forall|i: int| 0 <= i < self.globals@.len() implies value_wf(
                        (#[trigger] self.globals@[i]).1,
                        self.objects@.len() as int,
                    ) by {
                        lemma_value_wf_mono(
                            self.globals@[i].1,
                            old(self).objects@.len() as int,
                            self.objects@.len() as int,
                        );
                    }
                    assert forall|i: int| 0 <= i < self.output@.len() implies value_wf(
                        #[trigger] self.output@[i],
                        self.objects@.len() as int,
                    ) by {
                        lemma_value_wf_mono(
                            self.output@[i],
                            old(self).objects@.len() as int,
                            self.objects@.len() as int,
                        );
                    }
                    assert(constants_wf(self.chunk.constants@, self.objects@.len() as int))
                        by {
                        assert forall|i: int|
                            0 <= i < self.chunk.constants@.len() implies value_wf(
                            #[trigger] self.chunk.constants@[i],
                            self.objects@.len() as int,
                        ) by {
                            lemma_value_wf_mono(
                                self.chunk.constants@[i],
                                old(self).objects@.len() as int,
                                self.objects@.len() as int,
                            );
                        }
                    }
                    assert(step(old(self).chunk.code@, old(self).chunk.constants@, pre)
                        =~~= StepResult::Next(self.mstate()));
                }
                Ok(())
            },
            _ => {
                proof {
                    let pre = old(self).mstate_at(old(self).ip - 1);
                    assert(step(old(self).chunk.code@, old(self).chunk.constants@, pre)
                        =~~= StepResult::Done(
                        self.mstate(),
                        Err(LoxRuntimeErr::InvalidType),
                    ));
                }
                Err(LoxRuntimeErr::InvalidType)
            },
        }
    }

    /// `NOT`: replace the top of the stack by its falsiness.
    fn not(&mut self) -> (r: Result<(), LoxRuntimeErr>)
        requires
            old(self).wf_data(),
            1 <= old(self).ip <= old(self).chunk.code@.len(),
            old(self).chunk.code@[old(self).ip - 1] == opcodes::NOT,
        ensures
            step_post(*old(self), *final(self), r),
    {
        let top = match self.peek(1) {
            Ok(v) => v,
            Err(e) => {
                proof {
                    let pre = old(self).mstate_at(old(self).ip - 1);
                    assert(step(old(self).chunk.code@, old(self).chunk.constants@, pre)
                        =~~= StepResult::Done(self.mstate(), Err(e)));
                }
                return Err(e);
            },
        };
        let v = RuntimeValue::Bool(Vm::is_falsy(top));
        let n = self.stack.len();
        self.stack.set(n - 1, v);
        proof {
            let pre = old(self).mstate_at(old(self).ip - 1);
            assert(step(old(self).chunk.code@, old(self).chunk.constants@, pre)
                =~~= StepResult::Next(self.mstate()));
        }
        Ok(())
    }

    /// `NEGATE`: replace the top number by its negation; booleans and
    /// strings are `InvalidType`, `nil` is `MissingOperand`.
    fn negate(&mut self) -> (r: Result<(), LoxRuntimeErr>)
        requires
            old(self).wf_data(),
            1 <= old(self).ip <= old(self).chunk.code@.len(),
            old(self).chunk.code@[old(self).ip - 1] == opcodes::NEGATE,
        ensures
            step_post(*old(self), *final(self), r),
    {
        let top = match self.peek(1) {
            Ok(v) => v,
            Err(e) => {
                proof {
                    let pre = old(self).mstate_at(old(self).ip - 1);
                    assert(step(old(self).chunk.code@, old(self).chunk.constants@, pre)
                        =~~= StepResult::Done(self.mstate(), Err(e)));
                }
                return Err(e);
            },
        };
        match top {
            RuntimeValue::Number(x) => {
                let n = self.stack.len();
                self.stack.set(n - 1, RuntimeValue::Number(num_negate(x)));
                proof {
                    let pre = old(self).mstate_at(old(self).ip - 1);
                    assert(step(old(self).chunk.code@, old(self).chunk.constants@, pre)
                        =~~= StepResult::Next(self.mstate()));
                }
                Ok(())
            },
            RuntimeValue::Nil => {
                proof {
                    let pre = old(self).mstate_at(old(self).ip - 1);
                    assert(step(old(self).chunk.code@, old(self).chunk.constants@, pre)
                        =~~= StepResult::Done(
                        self.mstate(),
                        Err(LoxRuntimeErr::MissingOperand),
                    ));
                }
                Err(LoxRuntimeErr::MissingOperand)
            },
            _ => {
                proof {
                    let pre = old(self).mstate_at(old(self).ip - 1);
                    assert(step(old(self).chunk.code@, old(self).chunk.constants@, pre)
                        =~~= StepResult::Done(
                        self.mstate(),
                        Err(LoxRuntimeErr::InvalidType),
                    ));
                }
                Err(LoxRuntimeErr::InvalidType)
            },
        }
    }

    /// `PRINT`: pop the top of the stack and append it to the output log.
    fn print(&mut self) -> (r: Result<(), LoxRuntimeErr>)
        requires
            old(self).wf_data(),
            1 <= old(self).ip <= old(self).chunk.code@.len(),
            old(self).chunk.code@[old(self).ip - 1] == opcodes::PRINT,
        ensures
            step_post(*old(self), *final(self), r),
    {
        let v = match self.pop() {
            Ok(v) => v,
            Err(e) => {
                proof {
                    let pre = old(self).mstate_at(old(self).ip - 1);
                    assert(step(old(self).chunk.code@, old(self).chunk.constants@, pre)
                        =~~= StepResult::Done(self.mstate(), Err(e)));
                }
                return Err(e);
            },
        };
        self.output.push(v);
        proof {
            let pre = old(self).mstate_at(old(self).ip - 1);
            assert(step(old(self).chunk.code@, old(self).chunk.constants@, pre)
                =~~= StepResult::Next(self.mstate()));
        }
        Ok(())
    }
}

/// A `Next` step moves the instruction pointer forward by exactly the
/// instruction's length, and running on is running from the new state.
proof fn lemma_step_next_advances(
    code: Seq<u8>,
    consts: Seq<RuntimeValue>,
    st: MState,
    st2: MState,
)
    requires
        0 <= st.ip < code.len(),
        instr_wf(code, consts, st.ip),
        step(code, consts, st) == StepResult::Next(st2),
    ensures
        st2.ip == st.ip + crate::bytecode::instr_len(code[st.ip]),
        st.ip < st2.ip <= code.len(),
        run(code, consts, st) == run(code, consts, st2),
{
}

/// A `Done` step is the whole remaining run.
proof fn lemma_step_done(
    code: Seq<u8>,
    consts: Seq<RuntimeValue>,
    st: MState,
    st2: MState,
    r0: Result<(), LoxRuntimeErr>,
)
    requires
        0 <= st.ip < code.len(),
        step(code, consts, st) == StepResult::Done(st2, r0),
    ensures
        run(code, consts, st) == (RunOutcome { state: st2, result: r0 }),
{
}

impl Vm {
    /// Execute from the current instruction pointer until `RETURN` (or the
    /// end of the code) halts the machine or a runtime error aborts it.
    /// The final machine state and the result are exactly the outcome the
    /// specification interpreter [`run`] ascribes to the starting state.
    pub fn execute(&mut self) -> (r: Result<(), LoxRuntimeErr>)
        requires
            old(self).wf(),
        ensures
            final(self).wf(),
            final(self).spec_code() == old(self).spec_code(),
            final(self).spec_consts() == old(self).spec_consts(),
            final(self).mstate() == run(
                old(self).spec_code(),
                old(self).spec_consts(),
                old(self).mstate(),
            ).state,
            r == run(old(self).spec_code(), old(self).spec_consts(), old(self).mstate()).result,
    {
        let ghost code = self.chunk.code@;
        let ghost consts = self.chunk.constants@;
        let ghost st0 = self.mstate();
        loop
            invariant
                self.wf(),
                self.chunk.code@ == code,
                self.chunk.constants@ == consts,
                code == old(self).spec_code(),
                consts == old(self).spec_consts(),
                st0 == old(self).mstate(),
                run(code, consts, st0) == run(code, consts, self.mstate()),
            decreases code.len() - self.ip,
        {
            let n = self.chunk.code.len();
            if self.ip >= n {
                proof {
                    assert(run(code, consts, self.mstate()) == (RunOutcome {
                        state: self.mstate(),
                        result: Ok(()),
                    }));
                }
                return Ok(());
            }
            let ghost pre = self.mstate();
            proof {
                assert(instr_wf(code, consts, self.ip as int));
            }
            let opcode = self.read_byte();
            match self.dispatch(opcode) {
                Ok(true) => {
                    proof {
                        lemma_step_done(code, consts, pre, self.mstate(), Ok(()));
                    }
                    return Ok(());
                },
                Ok(false) => {
                    proof {
                        lemma_step_next_advances(code, consts, pre, self.mstate());
                    }
                },
                Err(e) => {
                    proof {
                        lemma_step_done(code, consts, pre, self.mstate(), Err(e));
                    }
                    return Err(e);
                },
            }
        }
    }

    /// Decode and execute the one instruction whose opcode byte (just
    /// consumed) is `opcode`. Returns `Ok(true)` when the machine halts
    /// normally (`RETURN`), `Ok(false)` to continue.
    fn dispatch(&mut self, opcode: u8) -> (r: Result<bool, LoxRuntimeErr>)
        requires
            old(self).wf_data(),
            1 <= old(self).ip <= old(self).chunk.code@.len(),
            instr_wf(old(self).chunk.code@, old(self).chunk.constants@, old(self).ip - 1),
            opcode == old(self).chunk.code@[old(self).ip - 1],
        ensures
            final(self).spec_chunk() == old(self).spec_chunk(),
            final(self).wf_data(),
            match r {
                Ok(halt) => {
                    if halt {
                        step(
                            old(self).spec_code(),
                            old(self).spec_consts(),
                            old(self).mstate_at(old(self).ip - 1),
                        ) == StepResult::Done(final(self).mstate(), Ok(()))
                    } else {
                        step(
                            old(self).spec_code(),
                            old(self).spec_consts(),
                            old(self).mstate_at(old(self).ip - 1),
                        ) == StepResult::Next(final(self).mstate())
                    }
                },
                Err(e) => step(
                    old(self).spec_code(),
                    old(self).spec_consts(),
                    old(self).mstate_at(old(self).ip - 1),
                ) == StepResult::Done(final(self).mstate(), Err(e)),
            },
    {
        let ghost pre = old(self).mstate_at(old(self).ip - 1);
        match opcode {
            opcodes::RETURN => {
                proof {
                    assert(step(old(self).chunk.code@, old(self).chunk.constants@, pre)
                        =~~= StepResult::Done(self.mstate(), Ok(())));
                }
                Ok(true)
            },
            opcodes::CONSTANT => {
                match self.constant() {
                    Ok(()) => Ok(false),
                    Err(e) => Err(e),
                }
            },
            opcodes::CONSTANT_LONG => {
                match self.constant_long() {
                    Ok(()) => Ok(false),
                    Err(e) => Err(e),
                }
            },
            opcodes::NIL => {
                match self.push(RuntimeValue::Nil) {
                    Ok(()) => {
                        proof {
                            assert(step(old(self).chunk.code@, old(self).chunk.constants@, pre)
                                =~~= StepResult::Next(self.mstate()));
                        }
                        Ok(false)
                    },
                    Err(e) => {
                        proof {
                            assert(step(old(self).chunk.code@, old(self).chunk.constants@, pre)
                                =~~= StepResult::Done(self.mstate(), Err(e)));
                        }
                        Err(e)
                    },
                }
            },
            opcodes::TRUE => {
                match self.push(RuntimeValue::Bool(true)) {
                    Ok(()) => {
                        proof {
                            assert(step(old(self).chunk.code@, old(self).chunk.constants@, pre)
                                =~~= StepResult::Next(self.mstate()));
                        }
                        Ok(false)
                    },
                    Err(e) => {
                        proof {
                            assert(step(old(self).chunk.code@, old(self).chunk.constants@, pre)
                                =~~= StepResult::Done(self.mstate(), Err(e)));
                        }
                        Err(e)
                    },
                }
            },
            opcodes::FALSE => {
                match self.push(RuntimeValue::Bool(false)) {
                    Ok(()) => {
                        proof {
                            assert(step(old(self).chunk.code@, old(self).chunk.constants@, pre)
                                =~~= StepResult::Next(self.mstate()));
                        }
                        Ok(false)
                    },
                    Err(e) => {
                        proof {
                            assert(step(old(self).chunk.code@, old(self).chunk.constants@, pre)
                                =~~= StepResult::Done(self.mstate(), Err(e)));
                        }
                        Err(e)
                    },
                }
            },
            opcodes::POP => {
                match self.pop() {
                    Ok(_) => {
                        proof {
                            assert(step(old(self).chunk.code@, old(self).chunk.constants@, pre)
                                =~~= StepResult::Next(self.mstate()));
                        }
                        Ok(false)
                    },
                    Err(e) => {
                        proof {
                            assert(step(old(self).chunk.code@, old(self).chunk.constants@, pre)
                                =~~= StepResult::Done(self.mstate(), Err(e)));
                        }
                        Err(e)
                    },
                }
            },
            opcodes::GET_LOCAL => {
                match self.get_local() {
                    Ok(()) => Ok(false),
                    Err(e) => Err(e),
                }
            },
            opcodes::SET_LOCAL => {
                match self.set_local() {
                    Ok(()) => Ok(false),
                    Err(e) => Err(e),
                }
            },
            opcodes::GET_GLOBAL => {
                match self.get_global() {
                    Ok(()) => Ok(false),
                    Err(e) => Err(e),
                }
            },
            opcodes::DEFINE_GLOBAL => {
                match self.define_global() {
                    Ok(()) => Ok(false),
                    Err(e) => Err(e),
                }
            },
            opcodes::SET_GLOBAL => {
                match self.set_global() {
                    Ok(()) => Ok(false),
                    Err(e) => Err(e),
                }
            },
            opcodes::EQUAL => {
                match self.equal() {
                    Ok(()) => Ok(false),
                    Err(e) => Err(e),
                }
            },
            opcodes::GREATER => {
                match self.greater() {
                    Ok(()) => Ok(false),
                    Err(e) => Err(e),
                }
            },
            opcodes::LESS => {
                match self.less() {
                    Ok(()) => Ok(false),
                    Err(e) => Err(e),
                }
            },
            opcodes::ADD => {
                match self.add() {
                    Ok(()) => Ok(false),
                    Err(e) => Err(e),
                }
            },
            opcodes::SUBTRACT => {
                match self.subtract() {
                    Ok(()) => Ok(false),
                    Err(e) => Err(e),
                }
            },
            opcodes::MULTIPLY => {
                match self.multiply() {
                    Ok(()) => Ok(false),
                    Err(e) => Err(e),
                }
            },
            opcodes::DIVIDE => {
                match self.divide() {
                    Ok(()) => Ok(false),
                    Err(e) => Err(e),
                }
            },
            opcodes::NOT => {
                match self.not() {
                    Ok(()) => Ok(false),
                    Err(e) => Err(e),
                }
            },
            opcodes::NEGATE => {
                match self.negate() {
                    Ok(()) => Ok(false),
                    Err(e) => Err(e),
                }
            },
            opcodes::PRINT => {
                match self.print() {
                    Ok(()) => Ok(false),
                    Err(e) => Err(e),
                }
            },
            _ => {
                proof {
                    assert(false);
                }
                Ok(true)
            },
        }
    }

    /// `GREATER` on the two topmost numbers.
    fn greater(&mut self) -> (r: Result<(), LoxRuntimeErr>)
        requires
            old(self).wf_data(),
            1 <= old(self).ip <= old(self).chunk.code@.len(),
            old(self).chunk.code@[old(self).ip - 1] == opcodes::GREATER,
        ensures
            step_post(*old(self), *final(self), r),
    {
        self.binary_num(opcodes::GREATER)
    }

    /// `LESS` on the two topmost numbers.
    fn less(&mut self) -> (r: Result<(), LoxRuntimeErr>)
        requires
            old(self).wf_data(),
            1 <= old(self).ip <= old(self).chunk.code@.len(),
            old(self).chunk.code@[old(self).ip - 1] == opcodes::LESS,
        ensures
            step_post(*old(self), *final(self), r),
    {
        self.binary_num(opcodes::LESS)
    }

    /// `SUBTRACT` on the two topmost numbers.
    fn subtract(&mut self) -> (r: Result<(), LoxRuntimeErr>)
        requires
            old(self).wf_data(),
            1 <= old(self).ip <= old(self).chunk.code@.len(),
            old(self).chunk.code@[old(self).ip - 1] == opcodes::SUBTRACT,
        ensures
            step_post(*old(self), *final(self), r),
    {
        self.binary_num(opcodes::SUBTRACT)
    }

    /// `MULTIPLY` on the two topmost numbers.
    fn multiply(&mut self) -> (r: Result<(), LoxRuntimeErr>)
        requires
            old(self).wf_data(),
            1 <= old(self).ip <= old(self).chunk.code@.len(),
            old(self).chunk.code@[old(self).ip - 1] == opcodes::MULTIPLY,
        ensures
            step_post(*old(self), *final(self), r),
    {
        self.binary_num(opcodes::MULTIPLY)
    }

    /// `DIVIDE` on the two topmost numbers.
    fn divide(&mut self) -> (r: Result<(), LoxRuntimeErr>)
        requires
            old(self).wf_data(),
            1 <= old(self).ip <= old(self).chunk.code@.len(),
            old(self).chunk.code@[old(self).ip - 1] == opcodes::DIVIDE,
        ensures
            step_post(*old(self), *final(self), r),
    {
        self.binary_num(opcodes::DIVIDE)
    }
}

/// Stack safety for one instruction: a machine whose stack is within
/// bounds steps to a machine whose stack is within bounds — pushes are
/// checked and fail with `StackOverflow` rather than exceed the limit.
pub proof fn lemma_step_stack_safe(code: Seq<u8>, consts: Seq<RuntimeValue>, st: MState)
    requires
        st.stack.len() <= STACK_SIZE,
        0 <= st.ip < code.len(),
    ensures
        match step(code, consts, st) {
            StepResult::Next(st2) => st2.stack.len() <= STACK_SIZE,
            StepResult::Done(st2, _) => st2.stack.len() <= STACK_SIZE,
        },
{
}

/// Stack safety for whole executions: starting within bounds, at no point
/// does the stack exceed `STACK_SIZE` values or underflow — every state
/// `run` passes through (each obtained by one safe step) and the final
/// state alike stay within bounds.
pub proof fn lemma_run_stack_safe(code: Seq<u8>, consts: Seq<RuntimeValue>, st: MState)
    requires
        st.stack.len() <= STACK_SIZE,
    ensures
        run(code, consts, st).state.stack.len() <= STACK_SIZE,
    decreases code.len() - st.ip,
{
    if 0 <= st.ip < code.len() {
        lemma_step_stack_safe(code, consts, st);
        match step(code, consts, st) {
            StepResult::Next(st2) => {
                if st.ip < st2.ip <= code.len() {
                    lemma_run_stack_safe(code, consts, st2);
                }
            },
            StepResult::Done(_, _) => {},
        }
    }
}

/// Equality is reflexive for every value that is not a NaN number: the
/// program `print v == v;` prints `true` for such a `v`.
pub proof fn lemma_values_equal_reflexive(v: RuntimeValue, objs: Seq<Seq<char>>)
    requires
        match v {
            RuntimeValue::Number(b) => !crate::runtime_val::is_nan_bits(b),
            _ => true,
        },
    ensures
        values_equal_spec(v, v, objs),
{
}

/// A NaN number equals nothing, itself included: `NaN == NaN` is `false`.
pub proof fn lemma_nan_equals_nothing(b: u64, v: RuntimeValue, objs: Seq<Seq<char>>)
    requires
        crate::runtime_val::is_nan_bits(b),
    ensures
        !values_equal_spec(RuntimeValue::Number(b), v, objs),
        !values_equal_spec(v, RuntimeValue::Number(b), objs),
{
}

/// Triple negation prints the plain negation: for any number pattern `n`,
/// the machine output of the bytecode for `print ---n;` equals that of the
/// bytecode for `print -n;` — one line holding the negation of `n`. (The
/// compiler emits exactly these instruction sequences for those programs.)
pub proof fn lemma_triple_negation_prints_the_negation(n: u64)
    ensures
        ({
            let triple = seq![
                opcodes::CONSTANT,
                0u8,
                opcodes::NEGATE,
                opcodes::NEGATE,
                opcodes::NEGATE,
                opcodes::PRINT,
                opcodes::RETURN,
            ];
            let single = seq![
                opcodes::CONSTANT,
                0u8,
                opcodes::NEGATE,
                opcodes::PRINT,
                opcodes::RETURN,
            ];
            let consts = seq![RuntimeValue::Number(n)];
            let st0 = MState {
                ip: 0,
                stack: Seq::<RuntimeValue>::empty(),
                objs: Seq::<Seq<char>>::empty(),
                globals: Seq::<(Seq<char>, RuntimeValue)>::empty(),
                output: Seq::<RuntimeValue>::empty(),
            };
            &&& run(triple, consts, st0).result == Ok::<(), LoxRuntimeErr>(())
            &&& run(single, consts, st0).result == Ok::<(), LoxRuntimeErr>(())
            &&& run(triple, consts, st0).state.output == run(single, consts, st0).state.output
            &&& run(triple, consts, st0).state.output == seq![
                RuntimeValue::Number(negated_bits(n)),
            ]
        }),
{
    reveal_with_fuel(run, 8);
    crate::runtime_val::lemma_negated_bits_involutive(n);
    let consts = seq![RuntimeValue::Number(n)];
    let st0 = MState {
        ip: 0,
        stack: Seq::<RuntimeValue>::empty(),
        objs: Seq::<Seq<char>>::empty(),
        globals: Seq::<(Seq<char>, RuntimeValue)>::empty(),
        output: Seq::<RuntimeValue>::empty(),
    };
    let one = seq![RuntimeValue::Number(n)];
    assert(st0.stack.push(RuntimeValue::Number(n)) =~= one);
    assert(one.update(0, RuntimeValue::Number(negated_bits(n))) =~= seq![
        RuntimeValue::Number(negated_bits(n)),
    ]);
    assert(seq![RuntimeValue::Number(negated_bits(n))].update(
        0,
        RuntimeValue::Number(negated_bits(negated_bits(n))),
    ) =~= one);
    assert(seq![RuntimeValue::Number(negated_bits(n))].drop_last()
        =~= Seq::<RuntimeValue>::empty());
}

/// Equality reflexivity, end to end: for every runtime value `v` that is
/// not a NaN number, the machine output of the bytecode for `print v == v;`
/// is the one line `true`.
pub proof fn lemma_self_equality_prints_true(v: RuntimeValue, objs: Seq<Seq<char>>)
    requires
        match v {
            RuntimeValue::Number(b) => !crate::runtime_val::is_nan_bits(b),
            _ => true,
        },
    ensures
        ({
            let code = seq![
                opcodes::CONSTANT,
                0u8,
                opcodes::CONSTANT,
                0u8,
                opcodes::EQUAL,
                opcodes::PRINT,
                opcodes::RETURN,
            ];
            let st0 = MState {
                ip: 0,
                stack: Seq::<RuntimeValue>::empty(),
                objs,
                globals: Seq::<(Seq<char>, RuntimeValue)>::empty(),
                output: Seq::<RuntimeValue>::empty(),
            };
            &&& run(code, seq![v], st0).result == Ok::<(), LoxRuntimeErr>(())
            &&& run(code, seq![v], st0).state.output == seq![RuntimeValue::Bool(true)]
        }),
{
    reveal_with_fuel(run, 8);
    lemma_values_equal_reflexive(v, objs);
    let st0 = MState {
        ip: 0,
        stack: Seq::<RuntimeValue>::empty(),
        objs,
        globals: Seq::<(Seq<char>, RuntimeValue)>::empty(),
        output: Seq::<RuntimeValue>::empty(),
    };
    let two = seq![v, v];
    assert(st0.stack.push(v).push(v) =~= two);
    assert(two[0] == v && two.last() == v);
    assert(stack_replace2(two, RuntimeValue::Bool(true)) =~= seq![RuntimeValue::Bool(true)]);
    assert(seq![RuntimeValue::Bool(true)].drop_last() =~= Seq::<RuntimeValue>::empty());
}

/// NaN non-reflexivity, end to end: for every NaN pattern `b` (for example
/// what `0/0` produces), the machine output of the bytecode for
/// `print b == b;` is the one line `false`.
pub proof fn lemma_nan_self_equality_prints_false(b: u64)
    requires
        crate::runtime_val::is_nan_bits(b),
    ensures
        ({
            let code = seq![
                opcodes::CONSTANT,
                0u8,
                opcodes::CONSTANT,
                0u8,
                opcodes::EQUAL,
                opcodes::PRINT,
                opcodes::RETURN,
            ];
            let consts = seq![RuntimeValue::Number(b)];
            let st0 = MState {
                ip: 0,
                stack: Seq::<RuntimeValue>::empty(),
                objs: Seq::<Seq<char>>::empty(),
                globals: Seq::<(Seq<char>, RuntimeValue)>::empty(),
                output: Seq::<RuntimeValue>::empty(),
            };
            &&& run(code, consts, st0).result == Ok::<(), LoxRuntimeErr>(())
            &&& run(code, consts, st0).state.output == seq![RuntimeValue::Bool(false)]
        }),
{
    reveal_with_fuel(run, 8);
    lemma_nan_equals_nothing(b, RuntimeValue::Number(b), Seq::<Seq<char>>::empty());
    let v = RuntimeValue::Number(b);
    let st0 = MState {
        ip: 0,
        stack: Seq::<RuntimeValue>::empty(),
        objs: Seq::<Seq<char>>::empty(),
        globals: Seq::<(Seq<char>, RuntimeValue)>::empty(),
        output: Seq::<RuntimeValue>::empty(),
    };
    let two = seq![v, v];
    assert(st0.stack.push(v).push(v) =~= two);
    assert(two[0] == v && two.last() == v);
    assert(stack_replace2(two, RuntimeValue::Bool(false)) =~= seq![RuntimeValue::Bool(false)]);
    assert(seq![RuntimeValue::Bool(false)].drop_last() =~= Seq::<RuntimeValue>::empty());
}

/// Character-for-character equality of two string slices.
fn str_eq(a: &str, b: &str) -> (r: bool)
    ensures
        r == (a@ == b@),
{
    let na = a.unicode_len();
    let nb = b.unicode_len();
    if na != nb {
        proof {
            assert(a@.len() != b@.len());
        }
        return false;
    }
    let mut i: usize = 0;
    while i < na
        invariant
            i <= na,
            na == a@.len(),
            na == b@.len(),
            forall|j: int| 0 <= j < i ==> a@[j] == b@[j],
        decreases na - i,
    {
        if a.get_char(i) != b.get_char(i) {
            return false;
        }
        i = i + 1;
    }
    proof {
        assert(a@ =~= b@);
    }
    true
}

} // verus!
