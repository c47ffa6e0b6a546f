use vstd::bytes::*;
use vstd::prelude::*;

use crate::data::{make_word, word_of, word_of_bool, Data};
use crate::opcodes::{op_of_byte, OpCode};
use crate::stack::{
    offset_spec, offsetted, pop_data, pop_spec, push_data, push_spec, read_spec, read_stack,
    resize_spec, store, store_spec, truncate_spec,
};
use crate::text::{decimal_i64, decode_utf8, parse_i64, trim, trimmed, utf8_decode};
use crate::vm::{arg_at, header_ok, load_spec, size_of_arch, Crash, Failure, PL0VM, Procedure, VmError};

verus! {

/// The run-time state of the machine: the procedure table, the constant table, the
/// stack of bytes, the program counter, the frame pointer and the current procedure.
pub struct ExecState {
    pub procedures: Vec<Procedure>,
    pub constants: Vec<Data>,
    pub stack: Vec<u8>,
    pub pc: usize,
    pub fp: usize,
    pub cur_proc: usize,
}

/// The mathematical state of the machine.
pub struct MachineView {
    pub procedures: Seq<Procedure>,
    pub constants: Seq<Data>,
    pub stack: Seq<u8>,
    pub pc: usize,
    pub fp: usize,
    pub cur_proc: usize,
}

impl View for ExecState {
    type V = MachineView;

    open spec fn view(&self) -> MachineView {
        MachineView {
            procedures: self.procedures@,
            constants: self.constants@,
            stack: self.stack@,
            pc: self.pc,
            fp: self.fp,
            cur_proc: self.cur_proc,
        }
    }
}

/// What an executed instruction did, for the trace of a debugging run.
#[allow(inconsistent_fields)]
#[derive(Clone, Copy, Debug, PartialEq, Eq, Structural)]
pub enum Note {
    /// Nothing to report.
    Nothing,
    /// A procedure entry reserved this many bytes of variables.
    Reserved(usize),
    /// A return: program counter, frame pointer and procedure before and after.
    Returned { from_pc: usize, to_pc: u64, from_fp: usize, to_fp: u64, from_proc: usize, to_proc: u64 },
    /// A call: program counter, frame pointer and procedure before and after.
    Called { from_pc: usize, to_pc: usize, from_fp: usize, to_fp: usize, from_proc: usize, to_proc: i16 },
    /// A value was read from a stack address and pushed.
    Took { value: i64, addr: usize },
    /// A stack address was pushed.
    PushedAddr(usize),
    /// The stack address of a variable of another procedure was pushed.
    PushedGlobalAddr { proc_index: usize, addr: i16, target: usize },
    /// A constant was pushed.
    PushedConstant { index: i16, value: i64 },
    /// A value was stored at an absolute address.
    Stored { value: i64, addr: i64 },
    /// A value was negated.
    Negated { from: i64, to: i64 },
    /// A value was tested for oddness.
    Odd { value: i64, odd: bool },
    /// An arithmetic operation; `result` is the exact result before it is cut to the word size.
    Arith { left: i64, right: i64, result: i64 },
    /// A comparison.
    Compared { left: i64, right: i64, result: bool },
    /// An unconditional jump to the position.
    Jumped(usize),
    /// A conditional jump; `target` is the new program counter.
    Branch { taken: bool, target: usize },
    /// A word was dropped from the stack (its value when there was one).
    Popped(Option<i64>),
    /// The value at a stack address replaced the address.
    Swapped { addr: usize, value: i64 },
    /// A value was stored at an address relative to the frame pointer.
    Put { rel: i64, abs: usize, value: Data },
    /// The value at an absolute address was pushed.
    Got { addr: i64, value: Data },
}

/// What one step of the machine asks of its caller.
#[derive(Clone, Copy, Debug, PartialEq, Eq, Structural)]
pub enum Event {
    /// Go on with the next instruction.
    Next(Note),
    /// Print the number, then go on.
    Print(i64),
    /// Print the program's text at `start` of `len` bytes (valid UTF-8), then go on.
    Text { start: usize, len: usize },
    /// Read a number and hand it to `provide_input` with this address, then go on.
    AwaitInput(Data),
    /// The main procedure returned: the run is over.
    Exit,
    /// The end of the code was reached: the run is over.
    End,
    /// The run stops with this error.
    Stop(VmError),
}

/// The 8 little-endian bytes of a position, as a return address on the stack holds it.
pub open spec fn pos_bytes(x: usize) -> Seq<u8> {
    spec_u64_to_le_bytes(x as u64)
}

/// The `u64` that the 8 bytes of the stack before position `end` hold.
pub open spec fn u64_before(stack: Seq<u8>, end: int) -> u64 {
    spec_u64_from_le_bytes(stack.subrange(end - 8, end))
}

/// The argument that follows the program counter, and the program counter after it.
pub open spec fn pop_arg(prog: Seq<u8>, pc: usize) -> (usize, Option<i16>) {
    ((pc + 2) as usize, arg_at(prog, pc as int))
}

/// The number of bytes from position `i` of the program up to the next 0 byte or the end.
pub open spec fn text_len(prog: Seq<u8>, i: int) -> nat
    decreases prog.len() - i,
{
    if i < 0 || i >= prog.len() || prog[i] == 0 {
        0
    } else {
        1 + text_len(prog, i + 1)
    }
}

/// The negation of a word; `None` when it overflows.
pub open spec fn neg_spec(d: Data) -> Option<Data> {
    match d {
        Data::B16(x) => if x == i16::MIN {
            None
        } else {
            Some(Data::B16((-x) as i16))
        },
        Data::B32(x) => if x == i32::MIN {
            None
        } else {
            Some(Data::B32((-x) as i32))
        },
        Data::B64(x) => if x == i64::MIN {
            None
        } else {
            Some(Data::B64((-x) as i64))
        },
    }
}

/// Division that rounds toward zero, as Rust's `/` on signed integers.
pub open spec fn trunc_div(a: int, b: int) -> int {
    let q = (if a < 0 { -a } else { a }) / (if b < 0 { -b } else { b });
    if (a < 0) == (b < 0) {
        q
    } else {
        -q
    }
}

/// The exact result of an arithmetic instruction on `left` and `right`.
pub open spec fn arith_spec(op: OpCode, left: int, right: int) -> Result<int, Crash> {
    match op {
        OpCode::OpAdd => Ok(left + right),
        OpCode::OpSubtract => Ok(left - right),
        OpCode::OpMultiply => Ok(left * right),
        _ => if right == 0 {
            Err(Crash::DivisionByZero)
        } else {
            Ok(trunc_div(left, right))
        },
    }
}

/// The result of a comparison instruction.
pub open spec fn compare_spec(op: OpCode, left: int, right: int) -> bool {
    match op {
        OpCode::CompareEq => left == right,
        OpCode::CompareNotEq => left != right,
        OpCode::CompareLT => left < right,
        OpCode::CompareGT => left > right,
        OpCode::CompareLTEq => left <= right,
        _ => left >= right,
    }
}

/// Whether `op` is an arithmetic instruction.
pub open spec fn is_arith(op: OpCode) -> bool {
    op is OpAdd || op is OpSubtract || op is OpMultiply || op is OpDivide
}

/// Whether `op` is a comparison instruction.
pub open spec fn is_compare(op: OpCode) -> bool {
    op is CompareEq || op is CompareNotEq || op is CompareLT || op is CompareGT || op is CompareLTEq
        || op is CompareGTEq
}

/// The word that holds a stack position, as the address instructions push it (the low
/// bytes of the position). Crashes on a 32-bit target with 64-bit words, where the position
/// has fewer bytes than a word.
pub open spec fn addr_word(size: Data, addr: usize) -> Result<Data, Crash> {
    if size matches Data::B64(_) && usize::BITS < 64 {
        Err(Crash::ShortRead)
    } else {
        Ok(word_of(size, addr as int))
    }
}

/// The state with another stack.
pub open spec fn with_stack(m: MachineView, stack: Seq<u8>) -> MachineView {
    MachineView { stack, ..m }
}

/// The state with another program counter.
pub open spec fn with_pc(m: MachineView, pc: usize) -> MachineView {
    MachineView { pc, ..m }
}

/// Reads a word at `addr` (a base plus an offset; a crash when the sum is no position) and
/// pushes it. `m.pc` is the program counter after the instruction.
pub open spec fn take_from(size: Data, m: MachineView, base: usize, off: i16) -> Result<(MachineView, Event), Crash> {
    match offset_spec(base, off as int) {
        None => Err(Crash::Overflow),
        Some(addr) => match read_spec(size, m.stack, addr as int) {
            Err(c) => Err(c),
            Ok(None) => Ok((m, Event::Stop(VmError::InvalidStackRead))),
            Ok(Some(d)) => Ok(
                (
                    with_stack(m, push_spec(m.stack, d)),
                    Event::Next(Note::Took { value: d.value() as i64, addr }),
                ),
            ),
        },
    }
}

/// Pushes the word of position `base + off` (a crash when the sum is no position).
pub open spec fn push_addr(size: Data, m: MachineView, base: usize, off: i16) -> Result<(MachineView, Event), Crash> {
    match offset_spec(base, off as int) {
        None => Err(Crash::Overflow),
        Some(addr) => match addr_word(size, addr) {
            Err(c) => Err(c),
            Ok(d) => Ok((with_stack(m, push_spec(m.stack, d)), Event::Next(Note::PushedAddr(addr)))),
        },
    }
}

/// The instructions that open and leave procedures and that call them.
pub open spec fn flow_spec(prog: Seq<u8>, op: OpCode, m: MachineView) -> Result<(MachineView, Event), Crash> {
    match op {
        OpCode::EntryProc => {
            let (pc3, a1) = pop_arg(prog, (m.pc + 2) as usize);
            match a1 {
                None => Ok((m, Event::Stop(VmError::InvalidArgRead(pc3)))),
                Some(proc_i) => if proc_i < 0 {
                    Ok((m, Event::Stop(VmError::EnterInvalidProc(proc_i))))
                } else {
                    let (pc4, a2) = pop_arg(prog, pc3);
                    match a2 {
                        None => Ok((m, Event::Stop(VmError::InvalidArgRead(pc4)))),
                        Some(varlen) => if proc_i as int >= m.procedures.len() {
                            Err(Crash::IndexOutOfRange)
                        } else {
                            let fp = m.procedures[proc_i as int].frame_ptr;
                            let n = fp + (varlen as usize);
                            if n > usize::MAX {
                                Err(Crash::Overflow)
                            } else if n > m.stack.len() && n > isize::MAX {
                                Err(Crash::CapacityOverflow)
                            } else {
                                Ok(
                                    (
                                        MachineView {
                                            pc: pc4,
                                            fp,
                                            stack: resize_spec(m.stack, n),
                                            ..m
                                        },
                                        Event::Next(Note::Reserved(varlen as usize)),
                                    ),
                                )
                            }
                        },
                    }
                },
            }
        },
        OpCode::ReturnProc => {
            if m.cur_proc == 0 {
                Ok((m, Event::Exit))
            } else if m.cur_proc >= m.procedures.len() {
                Err(Crash::IndexOutOfRange)
            } else {
                let s = truncate_spec(m.stack, m.procedures[m.cur_proc as int].frame_ptr as int);
                let n = s.len() as int;
                if n < 24 {
                    Err(Crash::Overflow)
                } else {
                    let new_proc = u64_before(s, n);
                    let new_fp = u64_before(s, n - 8);
                    let new_pc = u64_before(s, n - 16);
                    Ok(
                        (
                            MachineView {
                                stack: s.subrange(0, n - 24),
                                pc: new_pc as usize,
                                fp: new_fp as usize,
                                cur_proc: new_proc as usize,
                                ..m
                            },
                            Event::Next(
                                Note::Returned {
                                    from_pc: m.pc,
                                    to_pc: new_pc,
                                    from_fp: m.fp,
                                    to_fp: new_fp,
                                    from_proc: m.cur_proc,
                                    to_proc: new_proc,
                                },
                            ),
                        ),
                    )
                }
            }
        },
        _ => {
            let (pc2, a) = pop_arg(prog, m.pc);
            match a {
                None => Ok((m, Event::Stop(VmError::InvalidArgRead(pc2)))),
                Some(id) => if id < 0 {
                    Ok((m, Event::Stop(VmError::CallInvalidProc(id))))
                } else {
                    let s = m.stack + pos_bytes(pc2) + pos_bytes(m.fp) + pos_bytes(m.cur_proc);
                    if id as int >= m.procedures.len() {
                        Err(Crash::IndexOutOfRange)
                    } else {
                        let start = m.procedures[id as int].start_pos;
                        Ok(
                            (
                                MachineView {
                                    stack: s,
                                    cur_proc: id as usize,
                                    pc: start,
                                    procedures: m.procedures.update(
                                        id as int,
                                        Procedure { start_pos: start, frame_ptr: s.len() as usize },
                                    ),
                                    ..m
                                },
                                Event::Next(
                                    Note::Called {
                                        from_pc: pc2,
                                        to_pc: start,
                                        from_fp: m.fp,
                                        to_fp: s.len() as usize,
                                        from_proc: m.cur_proc,
                                        to_proc: id,
                                    },
                                ),
                            ),
                        )
                    }
                },
            }
        },
    }
}

/// The instructions that push a variable's value, a variable's address or a constant.
pub open spec fn push_spec_op(prog: Seq<u8>, size: Data, op: OpCode, m: MachineView) -> Result<(MachineView, Event), Crash> {
    let (pc2, a) = pop_arg(prog, m.pc);
    match a {
        None => Ok((m, Event::Stop(VmError::InvalidArgRead(pc2)))),
        Some(addr) => {
            let m2 = with_pc(m, pc2);
            match op {
                OpCode::PushValueLocalVar => if addr < 0 {
                    Ok((m, Event::Stop(VmError::InvalidLocalVarVal(addr))))
                } else {
                    take_from(size, m2, m.fp, addr)
                },
                OpCode::PushValueMainVar => if addr < 0 {
                    Ok((m, Event::Stop(VmError::InvalidMainVarVal(addr))))
                } else if m.procedures.len() == 0 {
                    Err(Crash::IndexOutOfRange)
                } else {
                    take_from(size, m2, m.procedures[0].frame_ptr, addr)
                },
                OpCode::PushAddressLocalVar => if addr < 0 {
                    Ok((m, Event::Stop(VmError::InvalidLocalVarAddr(addr))))
                } else {
                    push_addr(size, m2, m.fp, addr)
                },
                OpCode::PushAddressMainVar => if addr < 0 {
                    Ok((m, Event::Stop(VmError::InvalidMainVarAddr(addr))))
                } else if m.procedures.len() == 0 {
                    Err(Crash::IndexOutOfRange)
                } else {
                    push_addr(size, m2, m.procedures[0].frame_ptr, addr)
                },
                OpCode::PushConstant => if addr < 0 {
                    Ok((m, Event::Stop(VmError::InvalidConstant(addr))))
                } else if addr as int >= m.constants.len() {
                    Err(Crash::IndexOutOfRange)
                } else {
                    let c = m.constants[addr as int];
                    Ok(
                        (
                            with_stack(m2, push_spec(m.stack, c)),
                            Event::Next(Note::PushedConstant { index: addr, value: c.value() as i64 }),
                        ),
                    )
                },
                _ => {
                    let (pc3, b) = pop_arg(prog, pc2);
                    match b {
                        None => Ok((m, Event::Stop(VmError::InvalidArgRead(pc3)))),
                        Some(pi) => {
                            let proc_index = pi as usize;
                            let m3 = with_pc(m, pc3);
                            if op is PushValueGlobalVar {
                                if addr < 0 {
                                    Ok((m, Event::Stop(VmError::InvalidGlobalVarVal(addr, proc_index))))
                                } else if proc_index >= m.procedures.len() {
                                    Err(Crash::IndexOutOfRange)
                                } else {
                                    take_from(size, m3, m.procedures[proc_index as int].frame_ptr, addr)
                                }
                            } else if addr < 0 {
                                Ok((m, Event::Stop(VmError::InvalidGlobalVarAddr(addr, proc_index))))
                            } else if proc_index >= m.procedures.len() {
                                Err(Crash::IndexOutOfRange)
                            } else {
                                match push_addr(size, m3, m.procedures[proc_index as int].frame_ptr, addr) {
                                    Ok((m4, Event::Next(Note::PushedAddr(target)))) => Ok(
                                        (
                                            m4,
                                            Event::Next(Note::PushedGlobalAddr { proc_index, addr, target }),
                                        ),
                                    ),
                                    other => other,
                                }
                            }
                        },
                    }
                },
            }
        },
    }
}

/// The instructions that compute with the words on top of the stack.
pub open spec fn compute_spec(size: Data, op: OpCode, m: MachineView) -> Result<(MachineView, Event), Crash> {
    match pop_spec(size, m.stack) {
        None => Ok((m, Event::Stop(VmError::InvalidStackRead))),
        Some((top, s1)) => if op is Minusify {
            match neg_spec(top) {
                None => Err(Crash::Overflow),
                Some(n) => Ok(
                    (
                        with_stack(m, push_spec(s1, n)),
                        Event::Next(Note::Negated { from: top.value() as i64, to: n.value() as i64 }),
                    ),
                ),
            }
        } else if op is IsOdd {
            let v = top.value();
            let odd = v % 2 == 1;
            Ok(
                (
                    with_stack(m, push_spec(s1, word_of_bool(size, odd))),
                    Event::Next(Note::Odd { value: v as i64, odd }),
                ),
            )
        } else {
            match pop_spec(size, s1) {
                None => Ok((with_stack(m, s1), Event::Stop(VmError::InvalidStackRead))),
                Some((below, s2)) => {
                    let l = below.value();
                    let r = top.value();
                    if is_compare(op) {
                        let b = compare_spec(op, l, r);
                        Ok(
                            (
                                with_stack(m, push_spec(s2, word_of_bool(size, b))),
                                Event::Next(Note::Compared { left: l as i64, right: r as i64, result: b }),
                            ),
                        )
                    } else {
                        match arith_spec(op, l, r) {
                            Err(c) => Err(c),
                            Ok(v) => if v < i64::MIN || v > i64::MAX {
                                Err(Crash::Overflow)
                            } else {
                                Ok(
                                    (
                                        with_stack(m, push_spec(s2, word_of(size, v))),
                                        Event::Next(Note::Arith { left: l as i64, right: r as i64, result: v as i64 }),
                                    ),
                                )
                            },
                        }
                    }
                },
            }
        },
    }
}

/// The instructions that store, print, read, drop, swap and fetch words.
pub open spec fn memory_spec(size: Data, debug: bool, op: OpCode, m: MachineView) -> Result<(MachineView, Event), Crash> {
    match pop_spec(size, m.stack) {
        None => if op is Pop && !debug {
            Ok((m, Event::Next(Note::Popped(None))))
        } else {
            Ok((m, Event::Stop(VmError::InvalidStackRead)))
        },
        Some((top, s1)) => match op {
            OpCode::OutputValue => Ok((with_stack(m, s1), Event::Print(top.value() as i64))),
            OpCode::InputToAddr => Ok((with_stack(m, s1), Event::AwaitInput(top))),
            OpCode::Pop => Ok((with_stack(m, s1), Event::Next(Note::Popped(Some(top.value() as i64))))),
            OpCode::Swap | OpCode::Get => {
                let addr = (top.value() as i64) as usize;
                match read_spec(size, s1, addr as int) {
                    Err(c) => Err(c),
                    Ok(None) => Ok((with_stack(m, s1), Event::Stop(VmError::InvalidStackRead))),
                    Ok(Some(d)) => Ok(
                        (
                            with_stack(m, push_spec(s1, d)),
                            if op is Swap {
                                Event::Next(Note::Swapped { addr, value: d.value() as i64 })
                            } else {
                                Event::Next(Note::Got { addr: top.value() as i64, value: d })
                            },
                        ),
                    ),
                }
            },
            _ => match pop_spec(size, s1) {
                None => Ok((with_stack(m, s1), Event::Stop(VmError::InvalidStackRead))),
                Some((below, s2)) => {
                    let rel = below.value() as i64;
                    if op is StoreValue {
                        match store_spec(s2, (rel as usize) as int, top) {
                            Err(c) => Err(c),
                            Ok(s3) => Ok(
                                (
                                    with_stack(m, s3),
                                    Event::Next(Note::Stored { value: top.value() as i64, addr: rel }),
                                ),
                            ),
                        }
                    } else {
                        match offset_spec(m.fp, (rel as isize) as int) {
                            None => Err(Crash::Overflow),
                            Some(abs) => match store_spec(s2, abs as int, top) {
                                Err(c) => Err(c),
                                Ok(s3) => Ok(
                                    (with_stack(m, s3), Event::Next(Note::Put { rel, abs, value: top })),
                                ),
                            },
                        }
                    }
                },
            },
        },
    }
}

/// The jump instructions and the text output.
pub open spec fn jump_spec(prog: Seq<u8>, size: Data, op: OpCode, m: MachineView) -> Result<(MachineView, Event), Crash> {
    match op {
        OpCode::Jump => {
            let (pc2, a) = pop_arg(prog, m.pc);
            match a {
                None => Ok((m, Event::Stop(VmError::InvalidArgRead(pc2)))),
                Some(off) => match offset_spec(pc2, off as int) {
                    None => Err(Crash::Overflow),
                    Some(t) => Ok((with_pc(m, t), Event::Next(Note::Jumped(t)))),
                },
            }
        },
        OpCode::JumpIfFalse => match pop_spec(size, m.stack) {
            None => Ok((m, Event::Stop(VmError::InvalidStackRead))),
            Some((d, s1)) => {
                let (pc2, a) = pop_arg(prog, m.pc);
                match a {
                    None => Ok((with_stack(m, s1), Event::Stop(VmError::InvalidArgRead(pc2)))),
                    Some(off) => if d.value() == 0 {
                        match offset_spec(pc2, off as int) {
                            None => Err(Crash::Overflow),
                            Some(t) => Ok(
                                (
                                    MachineView { pc: t, stack: s1, ..m },
                                    Event::Next(Note::Branch { taken: true, target: t }),
                                ),
                            ),
                        }
                    } else {
                        Ok(
                            (
                                MachineView { pc: pc2, stack: s1, ..m },
                                Event::Next(Note::Branch { taken: false, target: pc2 }),
                            ),
                        )
                    },
                }
            },
        },
        _ => {
            let n = text_len(prog, m.pc as int);
            let bytes = prog.subrange(m.pc as int, m.pc + n);
            if utf8_decode(bytes) is None {
                Ok((m, Event::Stop(VmError::InvalidString { start: m.pc, len: n as usize })))
            } else {
                Ok((with_pc(m, (m.pc + n + 1) as usize), Event::Text { start: m.pc, len: n as usize }))
            }
        },
    }
}

/// What the instruction `op` does, with the program counter already past its byte.
pub open spec fn op_spec(prog: Seq<u8>, size: Data, debug: bool, op: OpCode, m: MachineView) -> Result<(MachineView, Event), Crash> {
    match op {
        OpCode::EntryProc | OpCode::ReturnProc | OpCode::CallProc => flow_spec(prog, op, m),
        OpCode::PushValueLocalVar | OpCode::PushValueMainVar | OpCode::PushValueGlobalVar
        | OpCode::PushAddressLocalVar | OpCode::PushAddressMainVar | OpCode::PushAddressGlobalVar
        | OpCode::PushConstant => push_spec_op(prog, size, op, m),
        OpCode::Minusify | OpCode::IsOdd | OpCode::OpAdd | OpCode::OpSubtract | OpCode::OpMultiply
        | OpCode::OpDivide | OpCode::CompareEq | OpCode::CompareNotEq | OpCode::CompareLT
        | OpCode::CompareGT | OpCode::CompareLTEq | OpCode::CompareGTEq => compute_spec(size, op, m),
        OpCode::StoreValue | OpCode::OutputValue | OpCode::InputToAddr | OpCode::Pop | OpCode::Swap
        | OpCode::Put | OpCode::Get => memory_spec(size, debug, op, m),
        OpCode::Jump | OpCode::JumpIfFalse | OpCode::PutString => jump_spec(prog, size, op, m),
        OpCode::EndOfCode => Ok((m, Event::End)),
        OpCode::OpAddAddr | OpCode::EntryProcEx => Err(Crash::NotImplemented),
    }
}

/// One step of the machine: fetch the instruction at the program counter and execute it.
/// `Err` means that the machine aborts (panics) in this step.
pub open spec fn step_spec(prog: Seq<u8>, size: Data, debug: bool, m: MachineView) -> Result<(MachineView, Event), Crash> {
    if m.pc >= prog.len() {
        Err(Crash::IndexOutOfRange)
    } else {
        let byte = prog[m.pc as int];
        match op_of_byte(byte) {
            None => Ok((m, Event::Stop(VmError::UnknownOpcode(byte)))),
            Some(op) => op_spec(prog, size, debug, op, with_pc(m, (m.pc + 1) as usize)),
        }
    }
}

/// Whether an executed step agrees with what the semantics gives: the same crash, or the
/// same event and the same state.
pub open spec fn outcome_ok(
    spec: Result<(MachineView, Event), Crash>,
    after: MachineView,
    r: Result<Event, Crash>,
) -> bool {
    match spec {
        Err(c) => r == Err::<Event, Crash>(c),
        Ok((m, e)) => r == Ok::<Event, Crash>(e) && after == m,
    }
}

/// The state in which a run starts: the procedure and constant tables loaded, an empty
/// stack, and the program counter at the main procedure (procedure 0).
pub open spec fn start_spec(prog: Seq<u8>, size: Data) -> Result<MachineView, Failure> {
    if !header_ok(prog) {
        Err(Failure::Error(VmError::InvalidFile))
    } else {
        let arch = arg_at(prog, 2).unwrap();
        if size_of_arch(arch) is None {
            Err(Failure::Error(VmError::InvalidArch(arch)))
        } else {
            match load_spec(prog, size) {
                Err(f) => Err(f),
                Ok((procs, consts)) => if procs.len() == 0 {
                    Err(Failure::Crash(Crash::IndexOutOfRange))
                } else {
                    Ok(
                        MachineView {
                            procedures: procs,
                            constants: consts,
                            stack: Seq::empty(),
                            pc: procs[0].start_pos,
                            fp: 0,
                            cur_proc: 0,
                        },
                    )
                },
            }
        }
    }
}

/// What a line of input does while the machine waits for a number to store at `addr`:
/// `Ok(None)` when the line is no number (the machine keeps waiting), else the state with the
/// number, cut to the word size, stored at the stack address `addr` (as `StoreValue` stores).
pub open spec fn input_spec(size: Data, m: MachineView, addr: Data, parsed: Option<i64>) -> Result<Option<MachineView>, Crash> {
    match parsed {
        None => Ok(None),
        Some(n) => match store_spec(m.stack, ((addr.value() as i64) as usize) as int, word_of(size, n as int)) {
            Err(c) => Err(c),
            Ok(s) => Ok(Some(with_stack(m, s))),
        },
    }
}


impl PL0VM {
    /// The argument at the program counter, and the program counter after it.
    fn pop_argument(&self, pc: usize) -> (r: (usize, Option<i16>))
        requires
            pc <= self.prog().len() + 8,
            self.prog().len() <= isize::MAX,
        ensures
            r == pop_arg(self.prog(), pc),
    {
        (pc + 2, self.read_arg(pc))
    }

    fn flow_exec(&self, op: OpCode, st: &mut ExecState) -> (r: Result<Event, Crash>)
        requires
            op is EntryProc || op is ReturnProc || op is CallProc,
            old(st).pc <= self.prog().len(),
            self.prog().len() <= isize::MAX,
        ensures
            outcome_ok(flow_spec(self.prog(), op, old(st)@), final(st)@, r),
    {
        match op {
            OpCode::EntryProc => {
                let (pc3, a1) = self.pop_argument(st.pc + 2);
                let proc_i = match a1 {
                    None => {
                        return Ok(Event::Stop(VmError::InvalidArgRead(pc3)));
                    },
                    Some(v) => v,
                };
                if proc_i < 0 {
                    return Ok(Event::Stop(VmError::EnterInvalidProc(proc_i)));
                }
                let (pc4, a2) = self.pop_argument(pc3);
                let varlen = match a2 {
                    None => {
                        return Ok(Event::Stop(VmError::InvalidArgRead(pc4)));
                    },
                    Some(v) => v,
                };
                let pi = proc_i as usize;
                if pi >= st.procedures.len() {
                    return Err(Crash::IndexOutOfRange);
                }
                let fp = st.procedures[pi].frame_ptr;
                let vl = #[verifier::truncate] (varlen as usize);
                let n = match fp.checked_add(vl) {
                    None => {
                        return Err(Crash::Overflow);
                    },
                    Some(n) => n,
                };
                if n > st.stack.len() && n > isize::MAX as usize {
                    return Err(Crash::CapacityOverflow);
                }
                let ghost before = st.stack@;
                st.stack.resize(n, 0);
                assert(st.stack@ =~= resize_spec(before, n as int));
                st.pc = pc4;
                st.fp = fp;
                Ok(Event::Next(Note::Reserved(vl)))
            },
            OpCode::ReturnProc => {
                if st.cur_proc == 0 {
                    return Ok(Event::Exit);
                }
                if st.cur_proc >= st.procedures.len() {
                    return Err(Crash::IndexOutOfRange);
                }
                let f = st.procedures[st.cur_proc].frame_ptr;
                let ghost before = st.stack@;
                st.stack.truncate(f);
                assert(st.stack@ =~= truncate_spec(before, f as int));
                let n = st.stack.len();
                if n < 24 {
                    return Err(Crash::Overflow);
                }
                let new_proc = u64_from_le_bytes(vstd::slice::slice_subrange(st.stack.as_slice(), n - 8, n));
                let new_fp = u64_from_le_bytes(vstd::slice::slice_subrange(st.stack.as_slice(), n - 16, n - 8));
                let new_pc = u64_from_le_bytes(vstd::slice::slice_subrange(st.stack.as_slice(), n - 24, n - 16));
                let note = Note::Returned {
                    from_pc: st.pc,
                    to_pc: new_pc,
                    from_fp: st.fp,
                    to_fp: new_fp,
                    from_proc: st.cur_proc,
                    to_proc: new_proc,
                };
                st.stack.truncate(n - 24);
                st.pc = #[verifier::truncate] (new_pc as usize);
                st.fp = #[verifier::truncate] (new_fp as usize);
                st.cur_proc = #[verifier::truncate] (new_proc as usize);
                Ok(Event::Next(note))
            },
            _ => {
                let (pc2, a) = self.pop_argument(st.pc);
                let id = match a {
                    None => {
                        return Ok(Event::Stop(VmError::InvalidArgRead(pc2)));
                    },
                    Some(v) => v,
                };
                if id < 0 {
                    return Ok(Event::Stop(VmError::CallInvalidProc(id)));
                }
                let ghost before = st.stack@;
                let mut b1 = u64_to_le_bytes(pc2 as u64);
                st.stack.append(&mut b1);
                let mut b2 = u64_to_le_bytes(st.fp as u64);
                st.stack.append(&mut b2);
                let mut b3 = u64_to_le_bytes(st.cur_proc as u64);
                st.stack.append(&mut b3);
                assert(st.stack@ =~= before + pos_bytes(pc2) + pos_bytes(st.fp) + pos_bytes(st.cur_proc));
                let pid = id as usize;
                if pid >= st.procedures.len() {
                    return Err(Crash::IndexOutOfRange);
                }
                let start = st.procedures[pid].start_pos;
                let len = st.stack.len();
                let note = Note::Called {
                    from_pc: pc2,
                    to_pc: start,
                    from_fp: st.fp,
                    to_fp: len,
                    from_proc: st.cur_proc,
                    to_proc: id,
                };
                st.procedures.set(pid, Procedure { start_pos: start, frame_ptr: len });
                st.cur_proc = pid;
                st.pc = start;
                Ok(Event::Next(note))
            },
        }
    }

    /// Reads the word at `base + off` and pushes it.
    fn take_exec(size: &Data, st: &mut ExecState, base: usize, off: i16) -> (r: Result<Event, Crash>)
        ensures
            outcome_ok(take_from(*size, old(st)@, base, off), final(st)@, r),
    {
        let addr = match offsetted(base, off as isize) {
            None => {
                return Err(Crash::Overflow);
            },
            Some(a) => a,
        };
        match read_stack(size, &st.stack, addr) {
            Err(c) => Err(c),
            Ok(None) => Ok(Event::Stop(VmError::InvalidStackRead)),
            Ok(Some(d)) => {
                push_data(&mut st.stack, d);
                Ok(Event::Next(Note::Took { value: d.i64(), addr }))
            },
        }
    }

    /// Pushes the word of position `base + off`.
    fn push_addr_exec(size: &Data, st: &mut ExecState, base: usize, off: i16) -> (r: Result<Event, Crash>)
        ensures
            outcome_ok(push_addr(*size, old(st)@, base, off), final(st)@, r),
    {
        let addr = match offsetted(base, off as isize) {
            None => {
                return Err(Crash::Overflow);
            },
            Some(a) => a,
        };
        let d = match *size {
            Data::B16(_) => Data::B16(#[verifier::truncate] (addr as i16)),
            Data::B32(_) => Data::B32(#[verifier::truncate] (addr as i32)),
            Data::B64(_) => {
                if usize::BITS < 64 {
                    return Err(Crash::ShortRead);
                }
                Data::B64(#[verifier::truncate] (addr as i64))
            },
        };
        push_data(&mut st.stack, d);
        Ok(Event::Next(Note::PushedAddr(addr)))
    }

    fn push_exec(&self, op: OpCode, st: &mut ExecState) -> (r: Result<Event, Crash>)
        requires
            op is PushValueLocalVar || op is PushValueMainVar || op is PushValueGlobalVar
                || op is PushAddressLocalVar || op is PushAddressMainVar || op is PushAddressGlobalVar
                || op is PushConstant,
            old(st).pc <= self.prog().len(),
            self.prog().len() <= isize::MAX,
        ensures
            outcome_ok(push_spec_op(self.prog(), self.word_size(), op, old(st)@), final(st)@, r),
    {
        let size = self.bits();
        let (pc2, a) = self.pop_argument(st.pc);
        let addr = match a {
            None => {
                return Ok(Event::Stop(VmError::InvalidArgRead(pc2)));
            },
            Some(v) => v,
        };
        match op {
            OpCode::PushValueLocalVar => {
                if addr < 0 {
                    return Ok(Event::Stop(VmError::InvalidLocalVarVal(addr)));
                }
                let base = st.fp;
                st.pc = pc2;
                Self::take_exec(&size, st, base, addr)
            },
            OpCode::PushValueMainVar => {
                if addr < 0 {
                    return Ok(Event::Stop(VmError::InvalidMainVarVal(addr)));
                }
                if st.procedures.len() == 0 {
                    return Err(Crash::IndexOutOfRange);
                }
                let base = st.procedures[0].frame_ptr;
                st.pc = pc2;
                Self::take_exec(&size, st, base, addr)
            },
            OpCode::PushAddressLocalVar => {
                if addr < 0 {
                    return Ok(Event::Stop(VmError::InvalidLocalVarAddr(addr)));
                }
                let base = st.fp;
                st.pc = pc2;
                Self::push_addr_exec(&size, st, base, addr)
            },
            OpCode::PushAddressMainVar => {
                if addr < 0 {
                    return Ok(Event::Stop(VmError::InvalidMainVarAddr(addr)));
                }
                if st.procedures.len() == 0 {
                    return Err(Crash::IndexOutOfRange);
                }
                let base = st.procedures[0].frame_ptr;
                st.pc = pc2;
                Self::push_addr_exec(&size, st, base, addr)
            },
            OpCode::PushConstant => {
                if addr < 0 {
                    return Ok(Event::Stop(VmError::InvalidConstant(addr)));
                }
                let ci = addr as usize;
                if ci >= st.constants.len() {
                    return Err(Crash::IndexOutOfRange);
                }
                let c = st.constants[ci];
                push_data(&mut st.stack, c);
                st.pc = pc2;
                Ok(Event::Next(Note::PushedConstant { index: addr, value: c.i64() }))
            },
            _ => {
                let (pc3, b) = self.pop_argument(pc2);
                let pi = match b {
                    None => {
                        return Ok(Event::Stop(VmError::InvalidArgRead(pc3)));
                    },
                    Some(v) => v,
                };
                let proc_index = #[verifier::truncate] (pi as usize);
                if op == OpCode::PushValueGlobalVar {
                    if addr < 0 {
                        return Ok(Event::Stop(VmError::InvalidGlobalVarVal(addr, proc_index)));
                    }
                    if proc_index >= st.procedures.len() {
                        return Err(Crash::IndexOutOfRange);
                    }
                    let base = st.procedures[proc_index].frame_ptr;
                    st.pc = pc3;
                    Self::take_exec(&size, st, base, addr)
                } else {
                    if addr < 0 {
                        return Ok(Event::Stop(VmError::InvalidGlobalVarAddr(addr, proc_index)));
                    }
                    if proc_index >= st.procedures.len() {
                        return Err(Crash::IndexOutOfRange);
                    }
                    let base = st.procedures[proc_index].frame_ptr;
                    st.pc = pc3;
                    match Self::push_addr_exec(&size, st, base, addr) {
                        Ok(Event::Next(Note::PushedAddr(target))) => Ok(
                            Event::Next(Note::PushedGlobalAddr { proc_index, addr, target }),
                        ),
                        other => other,
                    }
                }
            },
        }
    }

    fn compute_exec(&self, op: OpCode, st: &mut ExecState) -> (r: Result<Event, Crash>)
        requires
            op is Minusify || op is IsOdd || is_arith(op) || is_compare(op),
        ensures
            outcome_ok(compute_spec(self.word_size(), op, old(st)@), final(st)@, r),
    {
        let size = self.bits();
        let top = match pop_data(&size, &mut st.stack) {
            None => {
                return Ok(Event::Stop(VmError::InvalidStackRead));
            },
            Some(d) => d,
        };
        if op == OpCode::Minusify {
            let n = match top {
                Data::B16(x) => {
                    if x == i16::MIN {
                        return Err(Crash::Overflow);
                    }
                    Data::B16(-x)
                },
                Data::B32(x) => {
                    if x == i32::MIN {
                        return Err(Crash::Overflow);
                    }
                    Data::B32(-x)
                },
                Data::B64(x) => {
                    if x == i64::MIN {
                        return Err(Crash::Overflow);
                    }
                    Data::B64(-x)
                },
            };
            push_data(&mut st.stack, n);
            return Ok(Event::Next(Note::Negated { from: top.i64(), to: n.i64() }));
        }
        if op == OpCode::IsOdd {
            let v = top.i64();
            let odd = v % 2 != 0;
            let d = self.data_bool(odd);
            push_data(&mut st.stack, d);
            return Ok(Event::Next(Note::Odd { value: v, odd }));
        }
        let below = match pop_data(&size, &mut st.stack) {
            None => {
                return Ok(Event::Stop(VmError::InvalidStackRead));
            },
            Some(d) => d,
        };
        let l = below.i64();
        let r = top.i64();
        if op == OpCode::CompareEq || op == OpCode::CompareNotEq || op == OpCode::CompareLT
            || op == OpCode::CompareGT || op == OpCode::CompareLTEq || op == OpCode::CompareGTEq {
            let b = match op {
                OpCode::CompareEq => l == r,
                OpCode::CompareNotEq => l != r,
                OpCode::CompareLT => l < r,
                OpCode::CompareGT => l > r,
                OpCode::CompareLTEq => l <= r,
                _ => l >= r,
            };
            let d = self.data_bool(b);
            push_data(&mut st.stack, d);
            return Ok(Event::Next(Note::Compared { left: l, right: r, result: b }));
        }
        let v = match op {
            OpCode::OpAdd => l.checked_add(r),
            OpCode::OpSubtract => l.checked_sub(r),
            OpCode::OpMultiply => l.checked_mul(r),
            _ => {
                if r == 0 {
                    return Err(Crash::DivisionByZero);
                }
                if l == i64::MIN && r == -1 {
                    assert(trunc_div(l as int, r as int) == 0x8000_0000_0000_0000int) by {
                        assert(0x8000_0000_0000_0000int / 1int == 0x8000_0000_0000_0000int);
                    }
                    return Err(Crash::Overflow);
                }
                Some(trunc_div_exec(l, r))
            },
        };
        let v = match v {
            None => {
                return Err(Crash::Overflow);
            },
            Some(v) => v,
        };
        let d = make_word(&size, v);
        push_data(&mut st.stack, d);
        Ok(Event::Next(Note::Arith { left: l, right: r, result: v }))
    }

    fn memory_exec(&self, op: OpCode, st: &mut ExecState) -> (r: Result<Event, Crash>)
        requires
            op is StoreValue || op is OutputValue || op is InputToAddr || op is Pop || op is Swap
                || op is Put || op is Get,
        ensures
            outcome_ok(memory_spec(self.word_size(), self.is_debug(), op, old(st)@), final(st)@, r),
    {
        let size = self.bits();
        let top = match pop_data(&size, &mut st.stack) {
            None => {
                if op == OpCode::Pop && !self.debug() {
                    return Ok(Event::Next(Note::Popped(None)));
                }
                return Ok(Event::Stop(VmError::InvalidStackRead));
            },
            Some(d) => d,
        };
        match op {
            OpCode::OutputValue => Ok(Event::Print(top.i64())),
            OpCode::InputToAddr => Ok(Event::AwaitInput(top)),
            OpCode::Pop => Ok(Event::Next(Note::Popped(Some(top.i64())))),
            OpCode::Swap | OpCode::Get => {
                let addr = #[verifier::truncate] (top.i64() as usize);
                match read_stack(&size, &st.stack, addr) {
                    Err(c) => Err(c),
                    Ok(None) => Ok(Event::Stop(VmError::InvalidStackRead)),
                    Ok(Some(d)) => {
                        push_data(&mut st.stack, d);
                        if op == OpCode::Swap {
                            Ok(Event::Next(Note::Swapped { addr, value: d.i64() }))
                        } else {
                            Ok(Event::Next(Note::Got { addr: top.i64(), value: d }))
                        }
                    },
                }
            },
            _ => {
                let below = match pop_data(&size, &mut st.stack) {
                    None => {
                        return Ok(Event::Stop(VmError::InvalidStackRead));
                    },
                    Some(d) => d,
                };
                let rel = below.i64();
                if op == OpCode::StoreValue {
                    match store(&mut st.stack, #[verifier::truncate] (rel as usize), top) {
                        Err(c) => Err(c),
                        Ok(()) => Ok(Event::Next(Note::Stored { value: top.i64(), addr: rel })),
                    }
                } else {
                    let abs = match offsetted(st.fp, #[verifier::truncate] (rel as isize)) {
                        None => {
                            return Err(Crash::Overflow);
                        },
                        Some(a) => a,
                    };
                    match store(&mut st.stack, abs, top) {
                        Err(c) => Err(c),
                        Ok(()) => Ok(Event::Next(Note::Put { rel, abs, value: top })),
                    }
                }
            },
        }
    }

    fn jump_exec(&self, op: OpCode, st: &mut ExecState) -> (r: Result<Event, Crash>)
        requires
            op is Jump || op is JumpIfFalse || op is PutString,
            old(st).pc <= self.prog().len(),
            self.prog().len() <= isize::MAX,
        ensures
            outcome_ok(jump_spec(self.prog(), self.word_size(), op, old(st)@), final(st)@, r),
    {
        let size = self.bits();
        match op {
            OpCode::Jump => {
                let (pc2, a) = self.pop_argument(st.pc);
                let off = match a {
                    None => {
                        return Ok(Event::Stop(VmError::InvalidArgRead(pc2)));
                    },
                    Some(v) => v,
                };
                let t = match offsetted(pc2, off as isize) {
                    None => {
                        return Err(Crash::Overflow);
                    },
                    Some(t) => t,
                };
                st.pc = t;
                Ok(Event::Next(Note::Jumped(t)))
            },
            OpCode::JumpIfFalse => {
                let d = match pop_data(&size, &mut st.stack) {
                    None => {
                        return Ok(Event::Stop(VmError::InvalidStackRead));
                    },
                    Some(d) => d,
                };
                let (pc2, a) = self.pop_argument(st.pc);
                let off = match a {
                    None => {
                        return Ok(Event::Stop(VmError::InvalidArgRead(pc2)));
                    },
                    Some(v) => v,
                };
                if d.i64() == 0 {
                    let t = match offsetted(pc2, off as isize) {
                        None => {
                            return Err(Crash::Overflow);
                        },
                        Some(t) => t,
                    };
                    st.pc = t;
                    Ok(Event::Next(Note::Branch { taken: true, target: t }))
                } else {
                    st.pc = pc2;
                    Ok(Event::Next(Note::Branch { taken: false, target: pc2 }))
                }
            },
            _ => {
                let start = st.pc;
                let n = self.text_span(start);
                if !self.text_is_utf8(start, n) {
                    return Ok(Event::Stop(VmError::InvalidString { start, len: n }));
                }
                st.pc = start + n + 1;
                Ok(Event::Text { start, len: n })
            },
        }
    }
}

/// Division that rounds toward zero, for operands whose quotient fits.
fn trunc_div_exec(l: i64, r: i64) -> (q: i64)
    requires
        r != 0,
        !(l == i64::MIN && r == -1),
    ensures
        q == trunc_div(l as int, r as int),
{
    let la: u64 = if l < 0 { (0i128 - l as i128) as u64 } else { l as u64 };
    let ra: u64 = if r < 0 { (0i128 - r as i128) as u64 } else { r as u64 };
    let q = la / ra;
    assert(q <= la) by (nonlinear_arith)
        requires
            ra >= 1,
            q == la / ra,
    ;
    assert(q == la ==> ra == 1 || la == 0) by (nonlinear_arith)
        requires
            ra >= 1,
            q == la / ra,
    ;
    if (l < 0) == (r < 0) {
        q as i64
    } else {
        (0i128 - q as i128) as i64
    }
}

impl PL0VM {
    /// The number of bytes from `start` up to the next 0 byte or the end of the program.
    pub fn text_span(&self, start: usize) -> (n: usize)
        requires
            start <= self.prog().len(),
        ensures
            n == text_len(self.prog(), start as int),
            start + n <= self.prog().len(),
    {
        let prog = self.program();
        let len = prog.len();
        let mut n: usize = 0;
        while start + n < len && prog[start + n] != 0
            invariant
                start <= len,
                len == prog@.len(),
                start + n <= len,
                text_len(prog@, start as int) == n + text_len(prog@, start + n),
            decreases len - start - n,
        {
            n = n + 1;
        }
        n
    }

    /// Whether the `len` bytes of the program at `start` are valid UTF-8.
    pub fn text_is_utf8(&self, start: usize, len: usize) -> (ok: bool)
        requires
            start + len <= self.prog().len(),
        ensures
            ok == utf8_decode(self.prog().subrange(start as int, start + len)) is Some,
    {
        let prog = self.program();
        let bytes = vstd::slice::slice_to_vec(vstd::slice::slice_subrange(prog.as_slice(), start, start + len));
        assert(bytes@ =~= prog@.subrange(start as int, start + len));
        decode_utf8(bytes).is_some()
    }

    /// The text of `len` bytes at `start`, when it is valid UTF-8.
    pub fn text_at(&self, start: usize, len: usize) -> (t: Option<String>)
        requires
            start + len <= self.prog().len(),
        ensures
            t is Some <==> utf8_decode(self.prog().subrange(start as int, start + len)) is Some,
            t matches Some(s) ==> s@ == utf8_decode(self.prog().subrange(start as int, start + len)).unwrap(),
    {
        let prog = self.program();
        let bytes = vstd::slice::slice_to_vec(vstd::slice::slice_subrange(prog.as_slice(), start, start + len));
        assert(bytes@ =~= prog@.subrange(start as int, start + len));
        decode_utf8(bytes)
    }

    fn op_exec(&self, op: OpCode, st: &mut ExecState) -> (r: Result<Event, Crash>)
        requires
            old(st).pc <= self.prog().len(),
            self.prog().len() <= isize::MAX,
        ensures
            outcome_ok(op_spec(self.prog(), self.word_size(), self.is_debug(), op, old(st)@), final(st)@, r),
    {
        match op {
            OpCode::EntryProc | OpCode::ReturnProc | OpCode::CallProc => self.flow_exec(op, st),
            OpCode::PushValueLocalVar | OpCode::PushValueMainVar | OpCode::PushValueGlobalVar
            | OpCode::PushAddressLocalVar | OpCode::PushAddressMainVar
            | OpCode::PushAddressGlobalVar | OpCode::PushConstant => self.push_exec(op, st),
            OpCode::Minusify | OpCode::IsOdd | OpCode::OpAdd | OpCode::OpSubtract
            | OpCode::OpMultiply | OpCode::OpDivide | OpCode::CompareEq | OpCode::CompareNotEq
            | OpCode::CompareLT | OpCode::CompareGT | OpCode::CompareLTEq
            | OpCode::CompareGTEq => self.compute_exec(op, st),
            OpCode::StoreValue | OpCode::OutputValue | OpCode::InputToAddr | OpCode::Pop
            | OpCode::Swap | OpCode::Put | OpCode::Get => self.memory_exec(op, st),
            OpCode::Jump | OpCode::JumpIfFalse | OpCode::PutString => self.jump_exec(op, st),
            OpCode::EndOfCode => Ok(Event::End),
            OpCode::OpAddAddr | OpCode::EntryProcEx => Err(Crash::NotImplemented),
        }
    }

    /// Executes the instruction at the program counter. `Err` tells where the machine
    /// aborts; the state is then left unspecified.
    pub fn try_step(&self, st: &mut ExecState) -> (r: Result<Event, Crash>)
        ensures
            outcome_ok(step_spec(self.prog(), self.word_size(), self.is_debug(), old(st)@), final(st)@, r),
    {
        let len = self.prog_len();
        if st.pc >= len {
            return Err(Crash::IndexOutOfRange);
        }
        let byte = self.program()[st.pc];
        match OpCode::from_byte(byte) {
            None => Ok(Event::Stop(VmError::UnknownOpcode(byte))),
            Some(op) => {
                st.pc = st.pc + 1;
                self.op_exec(op, st)
            },
        }
    }

    /// Executes the instruction at the program counter, on a state where that does not abort.
    pub fn step(&self, st: &mut ExecState) -> (e: Event)
        requires
            step_spec(self.prog(), self.word_size(), self.is_debug(), old(st)@) is Ok,
        ensures
            step_spec(self.prog(), self.word_size(), self.is_debug(), old(st)@) matches Ok((m, e2))
                && e == e2 && final(st)@ == m,
    {
        match self.try_step(st) {
            Ok(e) => e,
            Err(_) => Event::End,
        }
    }

    /// Checks the header and loads the procedure and constant tables: the state in which a
    /// run starts.
    pub fn start(&self) -> (r: Result<ExecState, Failure>)
        ensures
            match start_spec(self.prog(), self.word_size()) {
                Ok(m) => r matches Ok(st) && st@ == m,
                Err(f) => r matches Err(g) && g == f,
            },
    {
        let prog = self.program();
        if prog.len() <= 4 || prog[3] > 0 {
            return Err(Failure::Error(VmError::InvalidFile));
        }
        let arch = match self.read_arg(crate::ARG_SIZE) {
            Some(a) => a,
            None => {
                return Err(Failure::Error(VmError::InvalidFile));
            },
        };
        if arch != 2 && arch != 4 && arch != 8 {
            return Err(Failure::Error(VmError::InvalidArch(arch)));
        }
        let (procedures, constants) = match self.load_data() {
            Err(f) => {
                return Err(f);
            },
            Ok(x) => x,
        };
        if procedures.len() == 0 {
            return Err(Failure::Crash(Crash::IndexOutOfRange));
        }
        let pc = procedures[0].start_pos;
        Ok(ExecState { procedures, constants, stack: Vec::new(), pc, fp: 0, cur_proc: 0 })
    }

    /// Hands a line of input to a machine that waits for a number to store at `addr` (see
    /// `Event::AwaitInput`). `Ok(false)`: the line is no number, and the machine keeps waiting;
    /// `Ok(true)`: the number was stored. `Err` tells where the machine aborts.
    pub fn provide_input(&self, st: &mut ExecState, addr: Data, line: &str) -> (r: Result<bool, Crash>)
        ensures
            match input_spec(self.word_size(), old(st)@, addr, decimal_i64(trimmed(line@))) {
                Err(c) => r == Err::<bool, Crash>(c),
                Ok(None) => r == Ok::<bool, Crash>(false) && final(st)@ == old(st)@,
                Ok(Some(m)) => r == Ok::<bool, Crash>(true) && final(st)@ == m,
            },
    {
        let t = trim(line);
        match parse_i64(t) {
            None => Ok(false),
            Some(n) => {
                let target = #[verifier::truncate] (addr.i64() as usize);
                let d = make_word(&self.bits(), n);
                match store(&mut st.stack, target, d) {
                    Err(c) => Err(c),
                    Ok(()) => Ok(true),
                }
            },
        }
    }
}

} // verus!

verus! {

/// The facts of `lemma_step_keeps_tables` for a result of the semantics.
pub open spec fn keeps_tables(m: MachineView, r: Result<(MachineView, Event), Crash>) -> bool {
    r matches Ok((m2, _)) ==> {
        &&& m2.constants == m.constants
        &&& m2.procedures.len() == m.procedures.len()
        &&& forall|i: int|
            0 <= i < m.procedures.len() ==> (#[trigger] m2.procedures[i]).start_pos
                == m.procedures[i].start_pos
    }
}

proof fn lemma_flow_keeps_tables(prog: Seq<u8>, op: OpCode, m: MachineView)
    ensures
        keeps_tables(m, flow_spec(prog, op, m)),
{
}

proof fn lemma_push_keeps_tables(prog: Seq<u8>, size: Data, op: OpCode, m: MachineView)
    ensures
        keeps_tables(m, push_spec_op(prog, size, op, m)),
{
}

proof fn lemma_compute_keeps_tables(size: Data, op: OpCode, m: MachineView)
    ensures
        keeps_tables(m, compute_spec(size, op, m)),
{
}

proof fn lemma_memory_keeps_tables(size: Data, debug: bool, op: OpCode, m: MachineView)
    ensures
        keeps_tables(m, memory_spec(size, debug, op, m)),
{
}

proof fn lemma_jump_keeps_tables(prog: Seq<u8>, size: Data, op: OpCode, m: MachineView)
    ensures
        keeps_tables(m, jump_spec(prog, size, op, m)),
{
}

/// A step changes neither the constant table nor the number of procedures nor where they
/// start; only a call changes a procedure's frame pointer.
pub proof fn lemma_step_keeps_tables(prog: Seq<u8>, size: Data, debug: bool, m: MachineView)
    ensures
        keeps_tables(m, step_spec(prog, size, debug, m)),
{
    if m.pc < prog.len() {
        if let Some(op) = op_of_byte(prog[m.pc as int]) {
            let m1 = with_pc(m, (m.pc + 1) as usize);
            lemma_flow_keeps_tables(prog, op, m1);
            lemma_push_keeps_tables(prog, size, op, m1);
            lemma_compute_keeps_tables(size, op, m1);
            lemma_memory_keeps_tables(size, debug, op, m1);
            lemma_jump_keeps_tables(prog, size, op, m1);
        }
    }
}

/// A call, followed by a return from the called procedure (when it is not procedure 0, and
/// left the caller's part of the stack and its own frame pointer as the call made them),
/// resumes the caller after the call's argument, with the caller's stack, frame pointer and
/// current procedure.
pub proof fn lemma_call_return(prog: Seq<u8>, size: Data, debug: bool, m: MachineView, m2: MachineView)
    requires
        prog.len() <= isize::MAX,
        m.stack.len() + 24 <= usize::MAX,
        m.pc < prog.len(),
        prog[m.pc as int] == OpCode::CallProc.spec_byte(),
        step_spec(prog, size, debug, m) matches Ok((m1, Event::Next(_))) && {
            &&& m1.cur_proc != 0
            &&& m2.cur_proc == m1.cur_proc
            &&& m2.cur_proc < m2.procedures.len()
            &&& m2.procedures[m2.cur_proc as int].frame_ptr == m1.procedures[m1.cur_proc as int].frame_ptr
            &&& m2.stack.len() >= m1.stack.len()
            &&& m2.stack.subrange(0, m1.stack.len() as int) == m1.stack
        },
        m2.pc < prog.len(),
        prog[m2.pc as int] == OpCode::ReturnProc.spec_byte(),
    ensures
        step_spec(prog, size, debug, m2) matches Ok((m3, Event::Next(_))) && {
            &&& m3.pc == m.pc + 3
            &&& m3.fp == m.fp
            &&& m3.cur_proc == m.cur_proc
            &&& m3.stack == m.stack
        },
{
    lemma_auto_spec_u64_to_from_le_bytes();
    let m1 = step_spec(prog, size, debug, m).unwrap().0;
    let pc2 = (m.pc + 3) as usize;
    let s1 = m.stack + pos_bytes(pc2) + pos_bytes(m.fp) + pos_bytes(m.cur_proc);
    assert(m1.stack == s1);
    let n = s1.len() as int;
    assert(m1.procedures[m1.cur_proc as int].frame_ptr == n);
    let s = truncate_spec(m2.stack, n);
    assert(s =~= s1);
    assert(s.subrange(n - 8, n) =~= pos_bytes(m.cur_proc));
    assert(s.subrange(n - 16, n - 8) =~= pos_bytes(m.fp));
    assert(s.subrange(n - 24, n - 16) =~= pos_bytes(pc2));
    assert(s.subrange(0, n - 24) =~= m.stack);
    assert(((m.cur_proc as u64) as usize) == m.cur_proc);
    assert(((m.fp as u64) as usize) == m.fp);
    assert(((pc2 as u64) as usize) == pc2);
}

} // verus!

verus! {

/// Popping a word of a size off the stack after pushing a word of that size gives back
/// the word and the stack before the push.
pub proof fn lemma_push_pop_sized(size: Data, s: Seq<u8>, d: Data)
    requires
        d.same_size(size),
    ensures
        pop_spec(size, push_spec(s, d)) == Some((d, s)),
{
    crate::stack::lemma_push_pop(s, d);
    crate::data::lemma_encode_len(d);
}

/// An arithmetic instruction takes the right operand from the top of the stack and the left
/// one below it, and replaces both by the exact result cut to the word size; it aborts where
/// the exact result leaves the `i64` range, and on a division by zero.
pub proof fn lemma_arith_instruction(
    prog: Seq<u8>,
    size: Data,
    debug: bool,
    m: MachineView,
    s: Seq<u8>,
    left: Data,
    right: Data,
    op: OpCode,
)
    requires
        is_arith(op),
        m.pc < prog.len(),
        m.pc + 1 <= usize::MAX,
        prog[m.pc as int] == op.spec_byte(),
        left.same_size(size),
        right.same_size(size),
        m.stack == push_spec(push_spec(s, left), right),
    ensures
        match arith_spec(op, left.value(), right.value()) {
            Err(c) => step_spec(prog, size, debug, m) == Err::<(MachineView, Event), Crash>(c),
            Ok(v) => if i64::MIN <= v <= i64::MAX {
                step_spec(prog, size, debug, m) matches Ok((m2, Event::Next(_))) && m2.stack == push_spec(
                    s,
                    word_of(size, v),
                ) && m2.pc == m.pc + 1
            } else {
                step_spec(prog, size, debug, m) == Err::<(MachineView, Event), Crash>(Crash::Overflow)
            },
        },
{
    crate::opcodes::lemma_byte_roundtrip(op);
    lemma_push_pop_sized(size, push_spec(s, left), right);
    lemma_push_pop_sized(size, s, left);
}

/// A comparison replaces its two operands (right on top, left below) by the word 1 when the
/// comparison holds and 0 when it does not.
pub proof fn lemma_compare_instruction(
    prog: Seq<u8>,
    size: Data,
    debug: bool,
    m: MachineView,
    s: Seq<u8>,
    left: Data,
    right: Data,
    op: OpCode,
)
    requires
        is_compare(op),
        m.pc < prog.len(),
        m.pc + 1 <= usize::MAX,
        prog[m.pc as int] == op.spec_byte(),
        left.same_size(size),
        right.same_size(size),
        m.stack == push_spec(push_spec(s, left), right),
    ensures
        step_spec(prog, size, debug, m) matches Ok((m2, Event::Next(_))) && m2.stack == push_spec(
            s,
            word_of_bool(size, compare_spec(op, left.value(), right.value())),
        ) && m2.pc == m.pc + 1,
{
    crate::opcodes::lemma_byte_roundtrip(op);
    lemma_push_pop_sized(size, push_spec(s, left), right);
    lemma_push_pop_sized(size, s, left);
}

/// `StoreValue` takes the value from the top of the stack and the target address below it,
/// and stores the value there; reading the address afterwards gives the value back.
pub proof fn lemma_store_value_instruction(
    prog: Seq<u8>,
    size: Data,
    debug: bool,
    m: MachineView,
    s: Seq<u8>,
    addr: Data,
    value: Data,
)
    requires
        m.pc < prog.len(),
        m.pc + 1 <= usize::MAX,
        prog[m.pc as int] == OpCode::StoreValue.spec_byte(),
        addr.same_size(size),
        value.same_size(size),
        m.stack == push_spec(push_spec(s, addr), value),
        store_spec(s, ((addr.value() as i64) as usize) as int, value) is Ok,
    ensures
        step_spec(prog, size, debug, m) matches Ok((m2, Event::Next(_))) && {
            &&& m2.stack == store_spec(s, ((addr.value() as i64) as usize) as int, value).unwrap()
            &&& read_spec(size, m2.stack, ((addr.value() as i64) as usize) as int)
                == Ok::<Option<Data>, Crash>(Some(value))
        },
{
    crate::opcodes::lemma_byte_roundtrip(OpCode::StoreValue);
    lemma_push_pop_sized(size, push_spec(s, addr), value);
    lemma_push_pop_sized(size, s, addr);
    crate::stack::lemma_store_read(s, ((addr.value() as i64) as usize) as int, value);
}

/// `JumpIfFalse` pops the condition; it jumps by its offset (counted from the position after
/// the offset) when the condition is 0, and goes on after the offset otherwise.
pub proof fn lemma_jump_if_false_instruction(
    prog: Seq<u8>,
    size: Data,
    debug: bool,
    m: MachineView,
    s: Seq<u8>,
    cond: Data,
)
    requires
        m.pc + 3 <= prog.len() <= isize::MAX,
        prog[m.pc as int] == OpCode::JumpIfFalse.spec_byte(),
        cond.same_size(size),
        m.stack == push_spec(s, cond),
    ensures
        ({
            let off = arg_at(prog, m.pc + 1).unwrap();
            let after = m.pc + 3;
            if cond.value() != 0 {
                step_spec(prog, size, debug, m) matches Ok((m2, e)) && m2.pc == after && m2.stack == s
                    && e == Event::Next(Note::Branch { taken: false, target: after as usize })
            } else if 0 <= after + off {
                step_spec(prog, size, debug, m) matches Ok((m2, e)) && m2.pc == after + off && m2.stack
                    == s && e == Event::Next(Note::Branch { taken: true, target: (after + off) as usize })
            } else {
                step_spec(prog, size, debug, m) == Err::<(MachineView, Event), Crash>(Crash::Overflow)
            }
        }),
{
    crate::opcodes::lemma_byte_roundtrip(OpCode::JumpIfFalse);
    lemma_push_pop_sized(size, s, cond);
}

} // verus!
