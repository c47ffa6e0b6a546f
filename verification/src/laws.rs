//! What single instructions do, stated over the bytes of the stack and plain integers.
use vstd::bytes::*;
use vstd::prelude::*;

use crate::data::{decode, lemma_encode_len, word_of, Data};
use crate::disasm::{dis_step, listed_constants, Header, Line, ListingEnd, Operands};
use crate::machine::{input_spec, lemma_push_pop_sized, step_spec, text_len, Event, MachineView, Note};
use crate::opcodes::{lemma_byte_roundtrip, OpCode};
use crate::stack::{resize_spec, store_spec};
use crate::text::utf8_decode;
use crate::vm::{arg_at, constants_at, Crash, VmError};

verus! {

/// The word that the first bytes of `bytes` hold is written back as those same bytes.
pub proof fn lemma_encode_decode(size: Data, bytes: Seq<u8>)
    requires
        bytes.len() >= size.width(),
    ensures
        decode(size, bytes).encode() == bytes.subrange(0, size.width() as int),
        decode(size, bytes).same_size(size),
        decode(size, bytes) == decode(size, bytes.subrange(0, size.width() as int)),
{
    let w = size.width() as int;
    assert(bytes.subrange(0, w).subrange(0, w) =~= bytes.subrange(0, w));
    lemma_auto_spec_u16_to_from_le_bytes();
    lemma_auto_spec_u32_to_from_le_bytes();
    lemma_auto_spec_u64_to_from_le_bytes();
    match size {
        Data::B16(_) => {
            let u = spec_u16_from_le_bytes(bytes.subrange(0, 2));
            assert((u as i16) as u16 == u) by (bit_vector);
        },
        Data::B32(_) => {
            let u = spec_u32_from_le_bytes(bytes.subrange(0, 4));
            assert((u as i32) as u32 == u) by (bit_vector);
        },
        Data::B64(_) => {
            let u = spec_u64_from_le_bytes(bytes.subrange(0, 8));
            assert((u as i64) as u64 == u) by (bit_vector);
        },
    }
}

/// The instruction at position `p` of the program is `op`, with room for `n` argument bytes.
pub open spec fn op_at(prog: Seq<u8>, p: int, op: OpCode, n: int) -> bool {
    &&& 0 <= p
    &&& p + 1 + n <= prog.len() <= isize::MAX
    &&& prog[p] == op.spec_byte()
}

/// The result of a step that only pushed `bytes` and moved the program counter to `pc`;
/// `note` is what the trace of a debugging run shows of it.
pub open spec fn pushed(
    r: Result<(MachineView, Event), Crash>,
    m: MachineView,
    bytes: Seq<u8>,
    pc: int,
    note: Note,
) -> bool {
    r matches Ok((m2, Event::Next(n))) && {
        &&& n == note
        &&& m2.stack == m.stack + bytes
        &&& m2.pc == pc
        &&& m2.fp == m.fp
        &&& m2.cur_proc == m.cur_proc
        &&& m2.procedures == m.procedures
        &&& m2.constants == m.constants
    }
}

/// `PushValueLocalVar a` pushes a copy of the word that is stored at the current frame
/// pointer plus `a`, and goes on after its argument.
pub proof fn lemma_push_local_value(prog: Seq<u8>, size: Data, debug: bool, m: MachineView)
    requires
        op_at(prog, m.pc as int, OpCode::PushValueLocalVar, 2),
        arg_at(prog, m.pc + 1).unwrap() >= 0,
        m.fp + arg_at(prog, m.pc + 1).unwrap() + size.width() <= m.stack.len() <= usize::MAX,
    ensures
        ({
            let at = m.fp + arg_at(prog, m.pc + 1).unwrap();
            pushed(
                step_spec(prog, size, debug, m),
                m,
                m.stack.subrange(at, at + size.width()),
                m.pc + 3,
                Note::Took {
                    value: decode(size, m.stack.subrange(at, at + size.width())).value() as i64,
                    addr: at as usize,
                },
            )
        }),
{
    lemma_byte_roundtrip(OpCode::PushValueLocalVar);
    let at = m.fp + arg_at(prog, m.pc + 1).unwrap();
    lemma_encode_decode(size, m.stack.subrange(at, m.stack.len() as int));
    assert(m.stack.subrange(at, m.stack.len() as int).subrange(0, size.width() as int)
        =~= m.stack.subrange(at, at + size.width()));
}

/// `PushValueMainVar a` pushes a copy of the word that is stored at the main procedure's
/// frame pointer plus `a`, whatever the current frame pointer is: a procedure that another
/// one called reads the main procedure's variables, not its own.
pub proof fn lemma_push_main_value(prog: Seq<u8>, size: Data, debug: bool, m: MachineView)
    requires
        op_at(prog, m.pc as int, OpCode::PushValueMainVar, 2),
        m.procedures.len() > 0,
        arg_at(prog, m.pc + 1).unwrap() >= 0,
        m.procedures[0].frame_ptr + arg_at(prog, m.pc + 1).unwrap() + size.width() <= m.stack.len()
            <= usize::MAX,
    ensures
        ({
            let at = m.procedures[0].frame_ptr + arg_at(prog, m.pc + 1).unwrap();
            pushed(
                step_spec(prog, size, debug, m),
                m,
                m.stack.subrange(at, at + size.width()),
                m.pc + 3,
                Note::Took {
                    value: decode(size, m.stack.subrange(at, at + size.width())).value() as i64,
                    addr: at as usize,
                },
            )
        }),
{
    lemma_byte_roundtrip(OpCode::PushValueMainVar);
    let at = m.procedures[0].frame_ptr + arg_at(prog, m.pc + 1).unwrap();
    lemma_encode_decode(size, m.stack.subrange(at, m.stack.len() as int));
    assert(m.stack.subrange(at, m.stack.len() as int).subrange(0, size.width() as int)
        =~= m.stack.subrange(at, at + size.width()));
}

/// `PushValueGlobalVar a k` pushes a copy of the word that is stored at the frame pointer of
/// procedure `k` plus `a`, and goes on after its two arguments.
pub proof fn lemma_push_global_value(prog: Seq<u8>, size: Data, debug: bool, m: MachineView)
    requires
        op_at(prog, m.pc as int, OpCode::PushValueGlobalVar, 4),
        arg_at(prog, m.pc + 1).unwrap() >= 0,
        0 <= arg_at(prog, m.pc + 3).unwrap() < m.procedures.len(),
        m.procedures[arg_at(prog, m.pc + 3).unwrap() as int].frame_ptr + arg_at(prog, m.pc + 1).unwrap()
            + size.width() <= m.stack.len() <= usize::MAX,
    ensures
        ({
            let at = m.procedures[arg_at(prog, m.pc + 3).unwrap() as int].frame_ptr + arg_at(
                prog,
                m.pc + 1,
            ).unwrap();
            pushed(
                step_spec(prog, size, debug, m),
                m,
                m.stack.subrange(at, at + size.width()),
                m.pc + 5,
                Note::Took {
                    value: decode(size, m.stack.subrange(at, at + size.width())).value() as i64,
                    addr: at as usize,
                },
            )
        }),
{
    lemma_byte_roundtrip(OpCode::PushValueGlobalVar);
    let at = m.procedures[arg_at(prog, m.pc + 3).unwrap() as int].frame_ptr + arg_at(
        prog,
        m.pc + 1,
    ).unwrap();
    lemma_encode_decode(size, m.stack.subrange(at, m.stack.len() as int));
    assert(m.stack.subrange(at, m.stack.len() as int).subrange(0, size.width() as int)
        =~= m.stack.subrange(at, at + size.width()));
}

/// `Jump o` at position `p` goes to `p + 3 + o`, counted from the end of its argument for a
/// forward and a backward jump alike; the machine aborts where that is no position.
pub proof fn lemma_jump_instruction(prog: Seq<u8>, size: Data, debug: bool, m: MachineView)
    requires
        op_at(prog, m.pc as int, OpCode::Jump, 2),
    ensures
        ({
            let target = m.pc + 3 + arg_at(prog, m.pc + 1).unwrap();
            if 0 <= target {
                pushed(
                    step_spec(prog, size, debug, m),
                    m,
                    Seq::empty(),
                    target,
                    Note::Jumped(target as usize),
                )
            } else {
                step_spec(prog, size, debug, m) == Err::<(MachineView, Event), Crash>(Crash::Overflow)
            }
        }),
{
    lemma_byte_roundtrip(OpCode::Jump);
    let m2 = step_spec(prog, size, debug, m);
    if m2 is Ok {
        assert(m2.unwrap().0.stack =~= m.stack + Seq::empty());
    }
}

/// The stack holds a word of the size of `size` on top, and its value is 0.
pub open spec fn top_is_zero(size: Data, stack: Seq<u8>) -> bool {
    stack.len() >= size.width() && decode(
        size,
        stack.subrange(stack.len() - size.width(), stack.len() as int),
    ).value() == 0
}

/// The listing shows a `Jump` or `JumpIfFalse` at position `p` with argument `o` as leading to
/// `p + 3 + o`, the position where the machine goes when it takes that jump (always for
/// `Jump`, on a 0 on top of the stack for `JumpIfFalse`), and goes on with the instruction
/// after the argument; a jump before position 0 ends the listing.
pub proof fn lemma_listed_jump_target(
    prog: Seq<u8>,
    size: Data,
    debug: bool,
    m: MachineView,
    rem: i16,
    count: i16,
    op: OpCode,
)
    requires
        op is Jump || op is JumpIfFalse,
        op_at(prog, m.pc as int, op, 2),
        rem >= i16::MIN + 3,
    ensures
        ({
            let o = arg_at(prog, m.pc + 1).unwrap();
            let target = m.pc + 3 + o;
            if 0 <= target {
                &&& dis_step(prog, m.pc, rem, count) matches Ok((line, next, rem2, count2))
                &&& line.head.at == m.pc
                &&& line.head.op == op
                &&& line.operands == (Operands::Jump { arg: o, target: target as usize })
                &&& next == m.pc + 3
                &&& rem2 == rem - 3
                &&& count2 == count
                &&& op is Jump ==> (step_spec(prog, size, debug, m) matches Ok((m2, _)) && m2.pc
                    == target)
                &&& (op is JumpIfFalse && top_is_zero(size, m.stack)) ==> (step_spec(
                    prog,
                    size,
                    debug,
                    m,
                ) matches Ok((m2, _)) && m2.pc == target)
            } else {
                dis_step(prog, m.pc, rem, count) is Err
            }
        }),
{
    lemma_byte_roundtrip(op);
    if op is Jump {
        lemma_jump_instruction(prog, size, debug, m);
    }
}


/// `PushAddressLocalVar a` pushes the stack position of the current frame pointer plus `a`,
/// as a word of the program's size.
pub proof fn lemma_push_local_address(prog: Seq<u8>, size: Data, debug: bool, m: MachineView)
    requires
        op_at(prog, m.pc as int, OpCode::PushAddressLocalVar, 2),
        size is B64 ==> usize::BITS == 64,
        arg_at(prog, m.pc + 1).unwrap() >= 0,
        m.fp + arg_at(prog, m.pc + 1).unwrap() <= usize::MAX,
    ensures
        pushed(
            step_spec(prog, size, debug, m),
            m,
            word_of(size, m.fp + arg_at(prog, m.pc + 1).unwrap()).encode(),
            m.pc + 3,
            Note::PushedAddr((m.fp + arg_at(prog, m.pc + 1).unwrap()) as usize),
        ),
{
    lemma_byte_roundtrip(OpCode::PushAddressLocalVar);
}

/// `PushAddressMainVar a` pushes the stack position of the main procedure's frame pointer
/// plus `a`, whatever the current frame pointer is.
pub proof fn lemma_push_main_address(prog: Seq<u8>, size: Data, debug: bool, m: MachineView)
    requires
        op_at(prog, m.pc as int, OpCode::PushAddressMainVar, 2),
        size is B64 ==> usize::BITS == 64,
        m.procedures.len() > 0,
        arg_at(prog, m.pc + 1).unwrap() >= 0,
        m.procedures[0].frame_ptr + arg_at(prog, m.pc + 1).unwrap() <= usize::MAX,
    ensures
        pushed(
            step_spec(prog, size, debug, m),
            m,
            word_of(size, m.procedures[0].frame_ptr + arg_at(prog, m.pc + 1).unwrap()).encode(),
            m.pc + 3,
            Note::PushedAddr((m.procedures[0].frame_ptr + arg_at(prog, m.pc + 1).unwrap()) as usize),
        ),
{
    lemma_byte_roundtrip(OpCode::PushAddressMainVar);
}

/// `PushAddressGlobalVar a k` pushes the stack position of procedure `k`'s frame pointer
/// plus `a`, and goes on after its two arguments.
pub proof fn lemma_push_global_address(prog: Seq<u8>, size: Data, debug: bool, m: MachineView)
    requires
        op_at(prog, m.pc as int, OpCode::PushAddressGlobalVar, 4),
        size is B64 ==> usize::BITS == 64,
        arg_at(prog, m.pc + 1).unwrap() >= 0,
        0 <= arg_at(prog, m.pc + 3).unwrap() < m.procedures.len(),
        m.procedures[arg_at(prog, m.pc + 3).unwrap() as int].frame_ptr + arg_at(prog, m.pc + 1).unwrap()
            <= usize::MAX,
    ensures
        ({
            let a = arg_at(prog, m.pc + 1).unwrap();
            let k = arg_at(prog, m.pc + 3).unwrap();
            let at = m.procedures[k as int].frame_ptr + a;
            pushed(
                step_spec(prog, size, debug, m),
                m,
                word_of(size, at).encode(),
                m.pc + 5,
                Note::PushedGlobalAddr { proc_index: k as usize, addr: a, target: at as usize },
            )
        }),
{
    lemma_byte_roundtrip(OpCode::PushAddressGlobalVar);
}

/// `PushConstant i` pushes entry `i` of the constant table.
pub proof fn lemma_push_constant(prog: Seq<u8>, size: Data, debug: bool, m: MachineView)
    requires
        op_at(prog, m.pc as int, OpCode::PushConstant, 2),
        0 <= arg_at(prog, m.pc + 1).unwrap() < m.constants.len(),
    ensures
        pushed(
            step_spec(prog, size, debug, m),
            m,
            m.constants[arg_at(prog, m.pc + 1).unwrap() as int].encode(),
            m.pc + 3,
            Note::PushedConstant {
                index: arg_at(prog, m.pc + 1).unwrap(),
                value: m.constants[arg_at(prog, m.pc + 1).unwrap() as int].value() as i64,
            },
        ),
{
    lemma_byte_roundtrip(OpCode::PushConstant);
}

/// Whether `v` is a value that a word of the size of `size` can hold.
pub open spec fn fits(size: Data, v: int) -> bool {
    match size {
        Data::B16(_) => i16::MIN <= v <= i16::MAX,
        Data::B32(_) => i32::MIN <= v <= i32::MAX,
        Data::B64(_) => i64::MIN <= v <= i64::MAX,
    }
}

/// The result of a step that replaced the operands on top of the stack (leaving `rest`
/// below them) by the word of value `v`, cut to the word size, and went on with the next
/// instruction; `note` is what the trace of a debugging run shows of it.
pub open spec fn leaves_word(
    r: Result<(MachineView, Event), Crash>,
    m: MachineView,
    size: Data,
    rest: Seq<u8>,
    v: int,
    note: Note,
) -> bool {
    r matches Ok((m2, Event::Next(n))) && {
        &&& n == note
        &&& m2.stack == rest + word_of(size, v).encode()
        &&& m2.pc == m.pc + 1
        &&& m2.fp == m.fp
        &&& m2.cur_proc == m.cur_proc
        &&& m2.procedures == m.procedures
        &&& m2.constants == m.constants
    }
}

/// `Minusify` replaces the word on top of the stack by a word of the same size whose value
/// is the negated value, for negative and positive words alike; it aborts on the one value
/// whose negation the size cannot hold.
pub proof fn lemma_minusify_instruction(
    prog: Seq<u8>,
    size: Data,
    debug: bool,
    m: MachineView,
    s: Seq<u8>,
    x: Data,
)
    requires
        op_at(prog, m.pc as int, OpCode::Minusify, 0),
        x.same_size(size),
        m.stack == s + x.encode(),
    ensures
        if fits(size, -x.value()) {
            &&& leaves_word(
                step_spec(prog, size, debug, m),
                m,
                size,
                s,
                -x.value(),
                Note::Negated { from: x.value() as i64, to: -x.value() as i64 },
            )
            &&& word_of(size, -x.value()).value() == -x.value()
        } else {
            step_spec(prog, size, debug, m) == Err::<(MachineView, Event), Crash>(Crash::Overflow)
        },
{
    lemma_byte_roundtrip(OpCode::Minusify);
    lemma_push_pop_sized(size, s, x);
}

/// `IsOdd` replaces the word on top of the stack by 1 when its value is odd (negative values
/// too) and by 0 when it is even.
pub proof fn lemma_is_odd_instruction(prog: Seq<u8>, size: Data, debug: bool, m: MachineView, s: Seq<u8>, x: Data)
    requires
        op_at(prog, m.pc as int, OpCode::IsOdd, 0),
        x.same_size(size),
        m.stack == s + x.encode(),
    ensures
        leaves_word(
            step_spec(prog, size, debug, m),
            m,
            size,
            s,
            if x.value() % 2 != 0 { 1 } else { 0 },
            Note::Odd { value: x.value() as i64, odd: x.value() % 2 != 0 },
        ),
{
    lemma_byte_roundtrip(OpCode::IsOdd);
    lemma_push_pop_sized(size, s, x);
}

/// Addition, subtraction and multiplication take the right operand from the top of the stack
/// and the left one below it, and replace both by the exact sum, difference or product, cut
/// to the word size; the machine aborts where that leaves the `i64` range.
pub proof fn lemma_add_sub_mul_instruction(
    prog: Seq<u8>,
    size: Data,
    debug: bool,
    m: MachineView,
    s: Seq<u8>,
    left: Data,
    right: Data,
    op: OpCode,
)
    requires
        op is OpAdd || op is OpSubtract || op is OpMultiply,
        op_at(prog, m.pc as int, op, 0),
        left.same_size(size),
        right.same_size(size),
        m.stack == s + left.encode() + right.encode(),
    ensures
        ({
            let (l, r) = (left.value(), right.value());
            let v = if op is OpAdd {
                l + r
            } else if op is OpSubtract {
                l - r
            } else {
                l * r
            };
            if i64::MIN <= v <= i64::MAX {
                leaves_word(
                    step_spec(prog, size, debug, m),
                    m,
                    size,
                    s,
                    v,
                    Note::Arith { left: l as i64, right: r as i64, result: v as i64 },
                )
            } else {
                step_spec(prog, size, debug, m) == Err::<(MachineView, Event), Crash>(Crash::Overflow)
            }
        }),
{
    lemma_byte_roundtrip(op);
    lemma_push_pop_sized(size, s + left.encode(), right);
    lemma_push_pop_sized(size, s, left);
}

/// `q` is the quotient of `l` by `r` rounded toward zero: the remainder `l - q * r` is smaller
/// than `r` in magnitude and is 0 or has the sign of `l`.
pub open spec fn is_quotient(l: int, r: int, q: int) -> bool {
    let rem = l - q * r;
    &&& (if rem < 0 { -rem } else { rem }) < (if r < 0 { -r } else { r })
    &&& (rem == 0 || (rem < 0) == (l < 0))
}

proof fn lemma_trunc_div_quotient(a: int, b: int)
    requires
        b != 0,
    ensures
        is_quotient(a, b, crate::machine::trunc_div(a, b)),
{
    let aa = if a < 0 { -a } else { a };
    let bb = if b < 0 { -b } else { b };
    let q0 = aa / bb;
    let rm = aa % bb;
    vstd::arithmetic::div_mod::lemma_fundamental_div_mod(aa, bb);
    vstd::arithmetic::div_mod::lemma_mod_bound(aa, bb);
    assert(aa == bb * q0 + rm);
    let q = crate::machine::trunc_div(a, b);
    if a >= 0 && b > 0 {
        assert(a - q * b == rm) by (nonlinear_arith)
            requires
                aa == a,
                bb == b,
                q == q0,
                aa == bb * q0 + rm,
        ;
    } else if a < 0 && b < 0 {
        assert(a - q * b == -rm) by (nonlinear_arith)
            requires
                aa == -a,
                bb == -b,
                q == q0,
                aa == bb * q0 + rm,
        ;
    } else if a >= 0 && b < 0 {
        assert(a - q * b == rm) by (nonlinear_arith)
            requires
                aa == a,
                bb == -b,
                q == -q0,
                aa == bb * q0 + rm,
        ;
    } else {
        assert(a - q * b == -rm) by (nonlinear_arith)
            requires
                aa == -a,
                bb == b,
                q == -q0,
                aa == bb * q0 + rm,
        ;
    }
}

/// `OpDivide` replaces its two operands (divisor on top, dividend below) by their quotient
/// rounded toward zero, cut to the word size; it aborts on a divisor of 0 and where the
/// quotient leaves the `i64` range.
pub proof fn lemma_divide_instruction(
    prog: Seq<u8>,
    size: Data,
    debug: bool,
    m: MachineView,
    s: Seq<u8>,
    left: Data,
    right: Data,
)
    requires
        op_at(prog, m.pc as int, OpCode::OpDivide, 0),
        left.same_size(size),
        right.same_size(size),
        m.stack == s + left.encode() + right.encode(),
    ensures
        ({
            let (l, r) = (left.value(), right.value());
            if r == 0 {
                step_spec(prog, size, debug, m) == Err::<(MachineView, Event), Crash>(Crash::DivisionByZero)
            } else if l == i64::MIN && r == -1 {
                step_spec(prog, size, debug, m) == Err::<(MachineView, Event), Crash>(Crash::Overflow)
            } else {
                exists|q: int|
                    #[trigger] is_quotient(l, r, q) && leaves_word(
                        step_spec(prog, size, debug, m),
                        m,
                        size,
                        s,
                        q,
                        Note::Arith { left: l as i64, right: r as i64, result: q as i64 },
                    )
            }
        }),
{
    lemma_byte_roundtrip(OpCode::OpDivide);
    lemma_push_pop_sized(size, s + left.encode(), right);
    lemma_push_pop_sized(size, s, left);
    let (l, r) = (left.value(), right.value());
    if r != 0 {
        lemma_trunc_div_quotient(l, r);
        let q = crate::machine::trunc_div(l, r);
        let aa = if l < 0 { -l } else { l };
        let bb = if r < 0 { -r } else { r };
        let q0 = aa / bb;
        let rm = aa % bb;
        vstd::arithmetic::div_mod::lemma_fundamental_div_mod(aa, bb);
        vstd::arithmetic::div_mod::lemma_mod_bound(aa, bb);
        assert(0 <= q0 <= aa && (bb >= 2 ==> q0 * 2 <= aa)) by (nonlinear_arith)
            requires
                aa >= 0,
                bb >= 1,
                0 <= rm < bb,
                aa == bb * q0 + rm,
        ;
        assert(i64::MIN <= l <= i64::MAX && i64::MIN <= r <= i64::MAX);
        if !(l == i64::MIN && r == -1) {
            assert(i64::MIN <= q <= i64::MAX);
            assert(is_quotient(l, r, q));
            assert(leaves_word(
                step_spec(prog, size, debug, m),
                m,
                size,
                s,
                q,
                Note::Arith { left: l as i64, right: r as i64, result: q as i64 },
            ));
        } else {
            assert(aa == 0x8000_0000_0000_0000 && bb == 1);
            assert(q0 == aa) by (nonlinear_arith)
                requires
                    bb == 1,
                    0 <= rm < bb,
                    aa == bb * q0 + rm,
            ;
            assert(q == 0x8000_0000_0000_0000);
            assert(step_spec(prog, size, debug, m) == Err::<(MachineView, Event), Crash>(Crash::Overflow));
        }
    } else {
        assert(step_spec(prog, size, debug, m) == Err::<(MachineView, Event), Crash>(Crash::DivisionByZero));
    }
}

/// The trace note of a comparison of `l` with `r` whose result is `b`.
pub open spec fn compared_note(l: int, r: int, b: bool) -> Note {
    Note::Compared { left: l as i64, right: r as i64, result: b }
}

/// A comparison takes the right operand from the top of the stack and the left one below it,
/// and replaces both by 1 when the comparison of their values holds and by 0 when it does not.
pub proof fn lemma_compare_values(
    prog: Seq<u8>,
    size: Data,
    debug: bool,
    m: MachineView,
    s: Seq<u8>,
    left: Data,
    right: Data,
    op: OpCode,
)
    requires
        op_at(prog, m.pc as int, op, 0),
        left.same_size(size),
        right.same_size(size),
        m.stack == s + left.encode() + right.encode(),
    ensures
        ({
            let (l, r) = (left.value(), right.value());
            let step = step_spec(prog, size, debug, m);
            &&& op is CompareEq ==> leaves_word(step, m, size, s, if l == r { 1 } else { 0 }, compared_note(l, r, l == r))
            &&& op is CompareNotEq ==> leaves_word(step, m, size, s, if l != r { 1 } else { 0 }, compared_note(l, r, l != r))
            &&& op is CompareLT ==> leaves_word(step, m, size, s, if l < r { 1 } else { 0 }, compared_note(l, r, l < r))
            &&& op is CompareGT ==> leaves_word(step, m, size, s, if l > r { 1 } else { 0 }, compared_note(l, r, l > r))
            &&& op is CompareLTEq ==> leaves_word(step, m, size, s, if l <= r { 1 } else { 0 }, compared_note(l, r, l <= r))
            &&& op is CompareGTEq ==> leaves_word(step, m, size, s, if l >= r { 1 } else { 0 }, compared_note(l, r, l >= r))
        }),
{
    lemma_byte_roundtrip(op);
    lemma_push_pop_sized(size, s + left.encode(), right);
    lemma_push_pop_sized(size, s, left);
}

/// `new` is `old` with `bytes` written at position `at`: grown with zero bytes where it was
/// too short, every other byte kept.
pub open spec fn written_at(old: Seq<u8>, new: Seq<u8>, at: int, bytes: Seq<u8>) -> bool {
    let end = at + bytes.len();
    &&& new.len() == (if end > old.len() { end } else { old.len() as int })
    &&& new.subrange(at, end) == bytes
    &&& forall|i: int|
        0 <= i < new.len() && !(at <= i < end) ==> #[trigger] new[i] == (if i < old.len() {
            old[i]
        } else {
            0u8
        })
}

proof fn lemma_store_writes(stack: Seq<u8>, a: int, d: Data)
    requires
        0 <= a,
        store_spec(stack, a, d) is Ok,
    ensures
        written_at(stack, store_spec(stack, a, d).unwrap(), a, d.encode()),
{
    lemma_encode_len(d);
    let s = store_spec(stack, a, d).unwrap();
    let end = a + d.width();
    let grown = if stack.len() < end {
        resize_spec(stack, end)
    } else {
        stack
    };
    assert(grown.len() == (if end > stack.len() { end } else { stack.len() as int }));
    assert(s == grown.subrange(0, a) + d.encode() + grown.subrange(end, grown.len() as int));
    assert(s.subrange(a, end) =~= d.encode());
    assert forall|i: int| 0 <= i < s.len() && !(a <= i < end) implies #[trigger] s[i] == (if i
        < stack.len() {
        stack[i]
    } else {
        0u8
    }) by {
        if i < a {
            assert(s[i] == grown[i]);
        } else {
            assert(s[i] == grown[i]);
        }
    }
}

/// The step left the procedure table, the constant table, the frame pointer and the current
/// procedure as they were.
pub open spec fn same_frame(m: MachineView, m2: MachineView) -> bool {
    &&& m2.fp == m.fp
    &&& m2.cur_proc == m.cur_proc
    &&& m2.procedures == m.procedures
    &&& m2.constants == m.constants
}

/// `StoreValue` takes the value from the top of the stack and the address below it, and
/// writes the value's bytes at that address of the stack that is left, which grows with zero
/// bytes where it is too short; every other byte stays.
pub proof fn lemma_store_value_writes(
    prog: Seq<u8>,
    size: Data,
    debug: bool,
    m: MachineView,
    s: Seq<u8>,
    addr: Data,
    value: Data,
)
    requires
        op_at(prog, m.pc as int, OpCode::StoreValue, 0),
        addr.same_size(size),
        value.same_size(size),
        m.stack == s + addr.encode() + value.encode(),
        0 <= addr.value(),
        addr.value() + size.width() <= isize::MAX,
    ensures
        step_spec(prog, size, debug, m) matches Ok((m2, Event::Next(note))) && {
            &&& written_at(s, m2.stack, addr.value(), value.encode())
            &&& note == (Note::Stored { value: value.value() as i64, addr: addr.value() as i64 })
            &&& m2.pc == m.pc + 1
            &&& same_frame(m, m2)
        },
{
    lemma_byte_roundtrip(OpCode::StoreValue);
    lemma_push_pop_sized(size, s + addr.encode(), value);
    lemma_push_pop_sized(size, s, addr);
    assert(((addr.value() as i64) as usize) as int == addr.value());
    lemma_store_writes(s, addr.value(), value);
}

/// `Put` takes the value from the top of the stack and an offset below it, and writes the
/// value's bytes at the current frame pointer plus that offset, as `StoreValue` writes.
pub proof fn lemma_put_writes(
    prog: Seq<u8>,
    size: Data,
    debug: bool,
    m: MachineView,
    s: Seq<u8>,
    rel: Data,
    value: Data,
)
    requires
        op_at(prog, m.pc as int, OpCode::Put, 0),
        rel.same_size(size),
        value.same_size(size),
        m.stack == s + rel.encode() + value.encode(),
        isize::MIN <= rel.value() <= isize::MAX,
        0 <= m.fp + rel.value(),
        m.fp + rel.value() + size.width() <= isize::MAX,
    ensures
        step_spec(prog, size, debug, m) matches Ok((m2, Event::Next(note))) && {
            &&& written_at(s, m2.stack, m.fp + rel.value(), value.encode())
            &&& note == (Note::Put { rel: rel.value() as i64, abs: (m.fp + rel.value()) as usize, value })
            &&& m2.pc == m.pc + 1
            &&& same_frame(m, m2)
        },
{
    lemma_byte_roundtrip(OpCode::Put);
    lemma_push_pop_sized(size, s + rel.encode(), value);
    lemma_push_pop_sized(size, s, rel);
    assert(((rel.value() as i64) as isize) as int == rel.value());
    lemma_store_writes(s, m.fp + rel.value(), value);
}

/// `Get` and `Swap` replace the address on top of the stack by a copy of the word stored at
/// that address of the stack below it.
pub proof fn lemma_get_swap_reads(
    prog: Seq<u8>,
    size: Data,
    debug: bool,
    m: MachineView,
    s: Seq<u8>,
    addr: Data,
    op: OpCode,
)
    requires
        op is Get || op is Swap,
        op_at(prog, m.pc as int, op, 0),
        addr.same_size(size),
        m.stack == s + addr.encode(),
        0 <= addr.value(),
        addr.value() + size.width() <= s.len() <= usize::MAX,
    ensures
        step_spec(prog, size, debug, m) matches Ok((m2, Event::Next(note))) && {
            &&& m2.stack == s + s.subrange(addr.value(), addr.value() + size.width())
            &&& op is Get ==> note == (Note::Got {
                addr: addr.value() as i64,
                value: decode(size, s.subrange(addr.value(), addr.value() + size.width())),
            })
            &&& op is Swap ==> note == (Note::Swapped {
                addr: addr.value() as usize,
                value: decode(size, s.subrange(addr.value(), addr.value() + size.width())).value() as i64,
            })
            &&& m2.pc == m.pc + 1
            &&& same_frame(m, m2)
        },
{
    lemma_byte_roundtrip(op);
    lemma_push_pop_sized(size, s, addr);
    let a = addr.value();
    assert(((a as i64) as usize) as int == a);
    lemma_encode_decode(size, s.subrange(a, s.len() as int));
    assert(s.subrange(a, s.len() as int).subrange(0, size.width() as int) =~= s.subrange(
        a,
        a + size.width(),
    ));
}

/// `Pop`, `OutputValue` and `InputToAddr` take the word from the top of the stack: `Pop`
/// drops it, `OutputValue` asks for its value to be printed, and `InputToAddr` asks for a
/// number to store at it as an address.
pub proof fn lemma_pop_output_input(
    prog: Seq<u8>,
    size: Data,
    debug: bool,
    m: MachineView,
    s: Seq<u8>,
    x: Data,
    op: OpCode,
)
    requires
        op is Pop || op is OutputValue || op is InputToAddr,
        op_at(prog, m.pc as int, op, 0),
        x.same_size(size),
        m.stack == s + x.encode(),
    ensures
        step_spec(prog, size, debug, m) matches Ok((m2, e)) && {
            &&& m2.stack == s
            &&& m2.pc == m.pc + 1
            &&& same_frame(m, m2)
            &&& op is Pop ==> e == Event::Next(Note::Popped(Some(x.value() as i64)))
            &&& op is OutputValue ==> e == Event::Print(x.value() as i64)
            &&& op is InputToAddr ==> e == Event::AwaitInput(x)
        },
{
    lemma_byte_roundtrip(op);
    lemma_push_pop_sized(size, s, x);
}

/// `CallProc k` at position `p` saves, on top of the stack, the position after its argument,
/// the frame pointer and the current procedure (8 little-endian bytes each), makes `k` the
/// current procedure with its frame starting after them, and goes to `k`'s start.
pub proof fn lemma_call_instruction(prog: Seq<u8>, size: Data, debug: bool, m: MachineView)
    requires
        op_at(prog, m.pc as int, OpCode::CallProc, 2),
        0 <= arg_at(prog, m.pc + 1).unwrap() < m.procedures.len(),
        m.stack.len() + 24 <= usize::MAX,
    ensures
        ({
            let k = arg_at(prog, m.pc + 1).unwrap() as int;
            let saved = m.stack + spec_u64_to_le_bytes((m.pc + 3) as u64) + spec_u64_to_le_bytes(
                m.fp as u64,
            ) + spec_u64_to_le_bytes(m.cur_proc as u64);
            step_spec(prog, size, debug, m) matches Ok((m2, Event::Next(_))) && {
                &&& m2.stack == saved
                &&& m2.stack.len() == m.stack.len() + 24
                &&& m2.pc == m.procedures[k].start_pos
                &&& m2.cur_proc == k
                &&& m2.fp == m.fp
                &&& m2.constants == m.constants
                &&& m2.procedures.len() == m.procedures.len()
                &&& m2.procedures[k].start_pos == m.procedures[k].start_pos
                &&& m2.procedures[k].frame_ptr == m.stack.len() + 24
                &&& forall|j: int|
                    0 <= j < m.procedures.len() && j != k ==> #[trigger] m2.procedures[j]
                        == m.procedures[j]
            }
        }),
{
    lemma_byte_roundtrip(OpCode::CallProc);
    lemma_auto_spec_u64_to_from_le_bytes();
}

/// `EntryProc` with procedure `k` and `n` bytes of variables (its second and third
/// arguments) makes `k`'s frame pointer the current one and sets the stack to exactly `n`
/// bytes past it: bytes beyond are dropped, missing ones are added as zeros.
pub proof fn lemma_entry_instruction(prog: Seq<u8>, size: Data, debug: bool, m: MachineView)
    requires
        op_at(prog, m.pc as int, OpCode::EntryProc, 6),
        0 <= arg_at(prog, m.pc + 3).unwrap() < m.procedures.len(),
        arg_at(prog, m.pc + 5).unwrap() >= 0,
        m.procedures[arg_at(prog, m.pc + 3).unwrap() as int].frame_ptr + arg_at(prog, m.pc + 5).unwrap()
            <= isize::MAX,
    ensures
        ({
            let fp = m.procedures[arg_at(prog, m.pc + 3).unwrap() as int].frame_ptr;
            let n = fp + arg_at(prog, m.pc + 5).unwrap();
            step_spec(prog, size, debug, m) matches Ok((m2, Event::Next(_))) && {
                &&& m2.fp == fp
                &&& m2.pc == m.pc + 7
                &&& m2.stack.len() == n
                &&& forall|i: int|
                    0 <= i < n ==> #[trigger] m2.stack[i] == (if i < m.stack.len() {
                        m.stack[i]
                    } else {
                        0u8
                    })
                &&& m2.cur_proc == m.cur_proc
                &&& m2.procedures == m.procedures
                &&& m2.constants == m.constants
            }
        }),
{
    lemma_byte_roundtrip(OpCode::EntryProc);
}

/// The number of argument bytes that follow the byte of `op` in the code (a text after
/// `PutString` not counted).
pub open spec fn arg_bytes(op: OpCode) -> int {
    match op {
        OpCode::PushValueLocalVar | OpCode::PushValueMainVar | OpCode::PushAddressLocalVar
        | OpCode::PushAddressMainVar | OpCode::CallProc | OpCode::PushConstant | OpCode::Jump
        | OpCode::JumpIfFalse => 2,
        OpCode::PushValueGlobalVar | OpCode::PushAddressGlobalVar => 4,
        OpCode::EntryProc => 6,
        _ => 0,
    }
}

/// The listing shows an instruction other than a jump or a text at `p` with its arguments
/// as the code holds them (one, two, or for a procedure entry its length, id and variable
/// bytes) and goes on after them. The count of bytes left in the procedure drops by the
/// instruction's length, and a procedure entry starts it anew from its length and counts one
/// procedure off.
pub proof fn lemma_listed_line(prog: Seq<u8>, p: usize, rem: i16, count: i16, op: OpCode)
    requires
        !(op is Jump || op is JumpIfFalse || op is PutString),
        op_at(prog, p as int, op, arg_bytes(op)),
        !(op is EntryProc) ==> rem - 1 - arg_bytes(op) >= i16::MIN,
        op is EntryProc ==> arg_at(prog, p + 1).unwrap() - 7 >= i16::MIN && count > i16::MIN,
    ensures
        ({
            let n = arg_bytes(op);
            let a = arg_at(prog, p + 1);
            let b = arg_at(prog, p + 3);
            let operands = if n == 0 {
                Operands::Nothing
            } else if n == 2 {
                Operands::One(a)
            } else if n == 4 {
                Operands::Two(a, b)
            } else {
                Operands::Entry { size: a.unwrap(), id: b.unwrap(), vars: arg_at(prog, p + 5) }
            };
            let (rem2, count2) = if op is EntryProc {
                (a.unwrap() - 7, count - 1)
            } else {
                (rem - 1 - n, count as int)
            };
            &&& (n >= 2 ==> a is Some) && (n >= 4 ==> b is Some) && (n == 6 ==> arg_at(prog, p + 5) is Some)
            &&& dis_step(prog, p, rem, count) == Ok::<(Line, usize, i16, i16), ListingEnd>(
                (
                    Line { head: Header { at: p, byte: prog[p as int], op }, operands },
                    (p + 1 + n) as usize,
                    rem2 as i16,
                    count2 as i16,
                ),
            )
        }),
{
    lemma_byte_roundtrip(op);
}

/// Position `i + n` ends the text of `n` bytes that starts at `i`: no byte before it is 0,
/// and it is a 0 byte or the end of the program.
pub open spec fn text_ends_at(prog: Seq<u8>, i: int, n: int) -> bool {
    &&& 0 <= n
    &&& i + n <= prog.len()
    &&& forall|j: int| i <= j < i + n ==> #[trigger] prog[j] != 0
    &&& (i + n == prog.len() || prog[i + n] == 0)
}

proof fn lemma_text_len_ends(prog: Seq<u8>, i: int)
    requires
        0 <= i <= prog.len(),
    ensures
        text_ends_at(prog, i, text_len(prog, i) as int),
    decreases prog.len() - i,
{
    if i < prog.len() && prog[i] != 0 {
        lemma_text_len_ends(prog, i + 1);
    }
}

/// `PutString` at `p` is followed by a text up to the next 0 byte (or the end of the code).
/// The machine asks for that text to be printed and goes on after its terminating 0 byte; the
/// listing shows the same text and goes on at the same position. A text that is not valid
/// UTF-8 stops the run and ends the listing.
pub proof fn lemma_put_string(
    prog: Seq<u8>,
    size: Data,
    debug: bool,
    m: MachineView,
    rem: i16,
    count: i16,
)
    requires
        op_at(prog, m.pc as int, OpCode::PutString, 0),
        rem - 2 - text_len(prog, m.pc + 1) >= i16::MIN,
        text_len(prog, m.pc + 1) + 2 <= i16::MAX,
    ensures
        ({
            let start = m.pc + 1;
            let n = text_len(prog, start) as int;
            &&& text_ends_at(prog, start, n)
            &&& if utf8_decode(prog.subrange(start, start + n)) is Some {
                &&& step_spec(prog, size, debug, m) matches Ok((m2, e)) && {
                    &&& e == (Event::Text { start: start as usize, len: n as usize })
                    &&& m2 == MachineView { pc: (start + n + 1) as usize, ..m }
                }
                &&& dis_step(prog, m.pc, rem, count) matches Ok((line, next, _, _)) && {
                    &&& line.operands == (Operands::Text { start: start as usize, len: n as usize })
                    &&& next == start + n + 1
                }
            } else {
                &&& step_spec(prog, size, debug, m) matches Ok((m2, e)) && m2.pc == start && e == (Event::Stop(VmError::InvalidString { start: start as usize, len: n as usize }))
                &&& dis_step(prog, m.pc, rem, count) is Err
            }
        }),
{
    lemma_byte_roundtrip(OpCode::PutString);
    lemma_text_len_ends(prog, m.pc + 1);
}

/// `EndOfCode` ends the run, and `ReturnProc` in the main procedure ends it too, both with
/// the state as it was.
pub proof fn lemma_run_ends(prog: Seq<u8>, size: Data, debug: bool, m: MachineView, op: OpCode)
    requires
        op is EndOfCode || (op is ReturnProc && m.cur_proc == 0),
        op_at(prog, m.pc as int, op, 0),
    ensures
        step_spec(prog, size, debug, m) matches Ok((m2, e)) && m2 == (MachineView {
            pc: (m.pc + 1) as usize,
            ..m
        }) && e == (if op is EndOfCode {
            Event::End
        } else {
            Event::Exit
        }),
{
    lemma_byte_roundtrip(op);
}

/// A line of input that is no number leaves the waiting machine as it is; a number is cut
/// to the word size and its bytes are written at the awaited address, as `StoreValue` writes.
pub proof fn lemma_input_writes(size: Data, m: MachineView, addr: Data, n: i64)
    requires
        0 <= addr.value(),
        addr.value() + size.width() <= isize::MAX,
    ensures
        input_spec(size, m, addr, None) == Ok::<Option<MachineView>, Crash>(None),
        input_spec(size, m, addr, Some(n)) matches Ok(Some(m2)) && {
            &&& written_at(m.stack, m2.stack, addr.value(), word_of(size, n as int).encode())
            &&& m2 == (MachineView { stack: m2.stack, ..m })
        },
{
    assert(((addr.value() as i64) as usize) as int == addr.value());
    lemma_store_writes(m.stack, addr.value(), word_of(size, n as int));
}

/// `ReturnProc` in a called procedure drops the procedure's frame and the 24 bytes below it,
/// and resumes with the position, frame pointer and procedure that those bytes hold (8
/// little-endian bytes each, in that order from the bottom).
pub proof fn lemma_return_instruction(prog: Seq<u8>, size: Data, debug: bool, m: MachineView)
    requires
        op_at(prog, m.pc as int, OpCode::ReturnProc, 0),
        0 < m.cur_proc < m.procedures.len(),
        24 <= m.procedures[m.cur_proc as int].frame_ptr <= m.stack.len(),
    ensures
        ({
            let f = m.procedures[m.cur_proc as int].frame_ptr as int;
            step_spec(prog, size, debug, m) matches Ok((m2, Event::Next(_))) && {
                &&& m2.stack == m.stack.subrange(0, f - 24)
                &&& m2.pc == spec_u64_from_le_bytes(m.stack.subrange(f - 24, f - 16)) as usize
                &&& m2.fp == spec_u64_from_le_bytes(m.stack.subrange(f - 16, f - 8)) as usize
                &&& m2.cur_proc == spec_u64_from_le_bytes(m.stack.subrange(f - 8, f)) as usize
                &&& m2.procedures == m.procedures
                &&& m2.constants == m.constants
            }
        }),
{
    lemma_byte_roundtrip(OpCode::ReturnProc);
    let f = m.procedures[m.cur_proc as int].frame_ptr as int;
    let t = m.stack.subrange(0, f);
    assert(t.subrange(0, f - 24) =~= m.stack.subrange(0, f - 24));
    assert(t.subrange(f - 24, f - 16) =~= m.stack.subrange(f - 24, f - 16));
    assert(t.subrange(f - 16, f - 8) =~= m.stack.subrange(f - 16, f - 8));
    assert(t.subrange(f - 8, f) =~= m.stack.subrange(f - 8, f));
}

/// What `StoreValue` writes to a variable of the main procedure, `PushValueMainVar` reads
/// back at any later state, in whatever procedure runs then, as long as the variable's bytes
/// were not written over in between.
pub proof fn lemma_main_var_read_after_store(
    prog: Seq<u8>,
    size: Data,
    debug: bool,
    m: MachineView,
    s: Seq<u8>,
    addr: Data,
    value: Data,
    later: MachineView,
)
    requires
        op_at(prog, m.pc as int, OpCode::StoreValue, 0),
        addr.same_size(size),
        value.same_size(size),
        m.stack == s + addr.encode() + value.encode(),
        0 <= addr.value(),
        addr.value() + size.width() <= isize::MAX,
        step_spec(prog, size, debug, m) matches Ok((m2, _)) && {
            &&& addr.value() + size.width() <= later.stack.len() <= usize::MAX
            &&& later.stack.subrange(addr.value(), addr.value() + size.width()) == m2.stack.subrange(
                addr.value(),
                addr.value() + size.width(),
            )
        },
        op_at(prog, later.pc as int, OpCode::PushValueMainVar, 2),
        later.procedures.len() > 0,
        arg_at(prog, later.pc + 1).unwrap() >= 0,
        later.procedures[0].frame_ptr + arg_at(prog, later.pc + 1).unwrap() == addr.value(),
    ensures
        pushed(
            step_spec(prog, size, debug, later),
            later,
            value.encode(),
            later.pc + 3,
            Note::Took { value: value.value() as i64, addr: addr.value() as usize },
        ),
{
    lemma_store_value_writes(prog, size, debug, m, s, addr, value);
    lemma_push_main_value(prog, size, debug, later);
    crate::data::lemma_decode_encode(value, Seq::empty());
    assert(value.encode() + Seq::<u8>::empty() =~= value.encode());
}

/// The argument that an instruction requires to be non-negative: the procedure id of an
/// entry, else the first argument.
pub open spec fn checked_arg(prog: Seq<u8>, p: int, op: OpCode) -> i16 {
    arg_at(prog, p + if op is EntryProc { 3int } else { 1int }).unwrap()
}

/// The message with which a negative argument `a` of `op` stops the run; `k` is the second
/// argument of the instructions that have one.
pub open spec fn negative_arg_error(op: OpCode, a: i16, k: i16) -> VmError {
    match op {
        OpCode::PushValueLocalVar => VmError::InvalidLocalVarVal(a),
        OpCode::PushValueMainVar => VmError::InvalidMainVarVal(a),
        OpCode::PushValueGlobalVar => VmError::InvalidGlobalVarVal(a, k as usize),
        OpCode::PushAddressLocalVar => VmError::InvalidLocalVarAddr(a),
        OpCode::PushAddressMainVar => VmError::InvalidMainVarAddr(a),
        OpCode::PushAddressGlobalVar => VmError::InvalidGlobalVarAddr(a, k as usize),
        OpCode::PushConstant => VmError::InvalidConstant(a),
        OpCode::CallProc => VmError::CallInvalidProc(a),
        _ => VmError::EnterInvalidProc(a),
    }
}

/// A negative variable address, constant index or procedure id stops the run with the message
/// that names the instruction's kind and the argument, before anything else is done.
pub proof fn lemma_negative_argument_stops(prog: Seq<u8>, size: Data, debug: bool, m: MachineView, op: OpCode)
    requires
        op is PushValueLocalVar || op is PushValueMainVar || op is PushValueGlobalVar
            || op is PushAddressLocalVar || op is PushAddressMainVar || op is PushAddressGlobalVar
            || op is PushConstant || op is CallProc || op is EntryProc,
        op_at(prog, m.pc as int, op, arg_bytes(op)),
        checked_arg(prog, m.pc as int, op) < 0,
    ensures
        step_spec(prog, size, debug, m) == Ok::<(MachineView, Event), Crash>(
            (
                MachineView { pc: (m.pc + 1) as usize, ..m },
                Event::Stop(
                    negative_arg_error(
                        op,
                        checked_arg(prog, m.pc as int, op),
                        arg_at(prog, m.pc + 3).unwrap_or(0),
                    ),
                ),
            ),
        ),
{
    lemma_byte_roundtrip(op);
}

/// The constant table after the code at `pc` holds one word for each whole word's bytes
/// that follow, in order: word `i` is the one whose little-endian bytes are those at
/// `pc + w * i`, for the word size `w`; trailing bytes that make no whole word are ignored.
pub proof fn lemma_constant_table_bytes(prog: Seq<u8>, bits: Data, pc: int, i: int)
    requires
        0 <= pc <= prog.len(),
        0 <= i < constants_at(prog, bits, pc).len(),
    ensures
        constants_at(prog, bits, pc).len() * bits.width() <= prog.len() - pc < (constants_at(
            prog,
            bits,
            pc,
        ).len() + 1) * bits.width(),
        constants_at(prog, bits, pc)[i].encode() == prog.subrange(
            pc + bits.width() * i,
            pc + bits.width() * (i + 1),
        ),
        constants_at(prog, bits, pc)[i].same_size(bits),
{
    let w = bits.width() as int;
    let n = prog.len() - pc;
    let k = n / w;
    vstd::arithmetic::div_mod::lemma_fundamental_div_mod(n, w);
    vstd::arithmetic::div_mod::lemma_mod_bound(n, w);
    assert(k * w <= n < (k + 1) * w && w * (i + 1) <= n && w * (i + 1) == w * i + w) by (nonlinear_arith)
        requires
            n == w * k + n % w,
            0 <= n % w < w,
            0 <= i < k,
    ;
    assert(constants_at(prog, bits, pc).len() == k);
    let rest = prog.subrange(pc + w * i, prog.len() as int);
    lemma_encode_decode(bits, rest);
    assert(rest.subrange(0, w) =~= prog.subrange(pc + w * i, pc + w * (i + 1)));
}

/// The listing shows, for a constant table at `pc`, the values of the same words that the
/// machine loads from it, in the same order.
pub proof fn lemma_listed_constants_are_loaded(prog: Seq<u8>, bits: Data, pc: int)
    requires
        0 <= pc <= prog.len(),
    ensures
        listed_constants(prog, bits, pc) matches Ok(values) && {
            &&& values.len() == constants_at(prog, bits, pc).len()
            &&& forall|i: int|
                0 <= i < values.len() ==> #[trigger] values[i] == constants_at(prog, bits, pc)[i].value()
        },
{
}

} // verus!
