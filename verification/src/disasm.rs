use vstd::prelude::*;

use crate::data::{decode, Data};
use crate::machine::text_len;
use crate::opcodes::{op_of_byte, OpCode};
use crate::text::utf8_decode;
use crate::vm::{arg_at, header_ok, Crash, PL0VM, VmError};

verus! {

/// The start of a listing line: position, byte and instruction.
#[derive(Clone, Copy, Debug, PartialEq, Eq, Structural)]
pub struct Header {
    pub at: usize,
    pub byte: u8,
    pub op: OpCode,
}

/// The arguments that a listing line shows.
#[derive(Clone, Copy, Debug, PartialEq, Eq, Structural)]
pub enum Operands {
    /// The instruction has no arguments.
    Nothing,
    /// One argument; `None` when it could not be read (nothing is shown then).
    One(Option<i16>),
    /// Two arguments, each `None` when it could not be read.
    Two(Option<i16>, Option<i16>),
    /// A jump: its offset and the position it leads to.
    Jump { arg: i16, target: usize },
    /// A procedure entry: its length in bytes, its id and its variable bytes (if readable).
    Entry { size: i16, id: i16, vars: Option<i16> },
    /// A text of the program, `len` bytes at `start`.
    Text { start: usize, len: usize },
}

/// A complete line of the listing.
#[derive(Clone, Copy, Debug, PartialEq, Eq, Structural)]
pub struct Line {
    pub head: Header,
    pub operands: Operands,
}

/// How the listing of the code ends.
#[derive(Clone, Copy, Debug, PartialEq, Eq, Structural)]
pub enum ListingEnd {
    /// Every procedure was listed; the constants follow.
    Done,
    /// The word size of the header is invalid; nothing follows.
    InvalidArch,
    /// The byte at `at` encodes no instruction; the constants (from `at` on) follow.
    UnknownOpcode { at: usize, byte: u8 },
    /// No instruction at `pc`; nothing follows.
    InvalidPc(usize),
    /// An argument at `pc` could not be read after the line head (and, for a procedure entry,
    /// its length) was shown; nothing follows.
    ArgMissing { line: Header, size: Option<i16>, pc: usize },
    /// A jump at `pc` with offset `arg` leads before position 0; the constants (from `pc` on)
    /// follow.
    InvalidJump { line: Header, pc: usize, arg: i16 },
    /// The text at `start` of `len` bytes is not valid UTF-8; the constants follow, from the
    /// byte after the text's terminator.
    InvalidString { line: Header, start: usize, len: usize },
    /// The machine aborts while listing the code.
    Crash(Crash),
}

/// The listing of a program: its header values, the lines of its code, how they end, and
/// the values of its constant table (or the abort that reading it causes).
pub struct Listing {
    pub procedure_count: i16,
    pub arch: i16,
    pub lines: Vec<Line>,
    pub end: ListingEnd,
    pub constants: Result<Vec<i64>, Crash>,
}

/// Whether the constants are listed after this end.
pub open spec fn lists_constants(end: ListingEnd) -> bool {
    end is Done || end is UnknownOpcode || end is InvalidJump || end is InvalidString
}

/// The position after the code, where the constant table starts, for an end that lists it.
pub open spec fn resume_pc(end: ListingEnd, done_pc: usize) -> usize {
    match end {
        ListingEnd::UnknownOpcode { at, .. } => at,
        ListingEnd::InvalidJump { pc, .. } => pc,
        ListingEnd::InvalidString { start, len, .. } => (start + len + 1) as usize,
        _ => done_pc,
    }
}

/// The argument at `pc`, and the position after it when it was read.
pub open spec fn listed_arg(prog: Seq<u8>, pc: usize) -> (Option<i16>, usize) {
    match arg_at(prog, pc as int) {
        Some(a) => (Some(a), (pc + 2) as usize),
        None => (None, pc),
    }
}

/// One line of the listing at `pc`, with the counter of bytes left in the current procedure
/// (`rem`) and of procedures not yet seen (`count`): the line, the next position, and the
/// updated counters; `Err` when the listing ends here.
pub open spec fn dis_step(prog: Seq<u8>, pc: usize, rem: i16, count: i16) -> Result<(Line, usize, i16, i16), ListingEnd> {
    if pc >= prog.len() {
        Err(ListingEnd::InvalidPc(pc))
    } else {
        let byte = prog[pc as int];
        match op_of_byte(byte) {
            None => Err(ListingEnd::UnknownOpcode { at: pc, byte }),
            Some(op) => {
                let head = Header { at: pc, byte, op };
                let pc1 = (pc + 1) as usize;
                let r: Result<(Operands, usize, i16, i16), ListingEnd> = match op {
                    OpCode::PushValueLocalVar | OpCode::PushValueMainVar
                    | OpCode::PushAddressLocalVar | OpCode::PushAddressMainVar | OpCode::CallProc
                    | OpCode::PushConstant => {
                        let (a, p) = listed_arg(prog, pc1);
                        Ok((Operands::One(a), p, rem, count))
                    },
                    OpCode::Jump | OpCode::JumpIfFalse => match arg_at(prog, pc1 as int) {
                        None => Err(ListingEnd::ArgMissing { line: head, size: None, pc: pc1 }),
                        Some(a) => {
                            let target = pc1 + 2 + a;
                            if target < 0 || target > usize::MAX {
                                Err(ListingEnd::InvalidJump { line: head, pc: pc1, arg: a })
                            } else {
                                Ok(
                                    (
                                        Operands::Jump { arg: a, target: target as usize },
                                        (pc1 + 2) as usize,
                                        rem,
                                        count,
                                    ),
                                )
                            }
                        },
                    },
                    OpCode::PushValueGlobalVar | OpCode::PushAddressGlobalVar => {
                        let (a, p) = listed_arg(prog, pc1);
                        let (b, q) = listed_arg(prog, p);
                        Ok((Operands::Two(a, b), q, rem, count))
                    },
                    OpCode::EntryProc => match arg_at(prog, pc1 as int) {
                        None => Err(ListingEnd::ArgMissing { line: head, size: None, pc: pc1 }),
                        Some(size) => match arg_at(prog, pc1 + 2) {
                            None => Err(
                                ListingEnd::ArgMissing { line: head, size: Some(size), pc: (pc1 + 2) as usize },
                            ),
                            Some(id) => {
                                let (v, p) = listed_arg(prog, (pc1 + 4) as usize);
                                if count == i16::MIN {
                                    Err(ListingEnd::Crash(Crash::Overflow))
                                } else {
                                    Ok((Operands::Entry { size, id, vars: v }, p, size, (count - 1) as i16))
                                }
                            },
                        },
                    },
                    OpCode::PutString => {
                        let n = text_len(prog, pc1 as int);
                        let p = (pc1 + n + 1) as usize;
                        if utf8_decode(prog.subrange(pc1 as int, pc1 + n)) is None {
                            Err(ListingEnd::InvalidString { line: head, start: pc1, len: n as usize })
                        } else {
                            Ok((Operands::Text { start: pc1, len: n as usize }, p, rem, count))
                        }
                    },
                    _ => Ok((Operands::Nothing, pc1, rem, count)),
                };
                match r {
                    Err(e) => Err(e),
                    Ok((operands, p, rem1, count1)) => {
                        let d = ((p - pc) as i16) as int;
                        if rem1 - d < i16::MIN || rem1 - d > i16::MAX {
                            Err(ListingEnd::Crash(Crash::Overflow))
                        } else {
                            Ok((Line { head, operands }, p, (rem1 - d) as i16, count1))
                        }
                    },
                }
            },
        }
    }
}

/// The lines of the listing from `pc` on, how they end, and the position after them.
pub struct DisRun {
    pub lines: Seq<Line>,
    pub end: ListingEnd,
    pub pc: usize,
}

/// The listing of the code from position `pc` on: one line per instruction until the last
/// procedure is complete (no bytes left and no procedures left), or the listing ends early.
pub open spec fn dis_from(prog: Seq<u8>, pc: usize, rem: i16, count: i16) -> DisRun
    decreases prog.len() + 8 - pc when prog.len() <= isize::MAX
{
    match dis_step(prog, pc, rem, count) {
        Err(end) => DisRun { lines: Seq::empty(), end, pc: resume_pc(end, pc) },
        Ok((line, p, rem2, count2)) => if rem2 <= 0 && count2 == 0 {
            DisRun { lines: seq![line], end: ListingEnd::Done, pc: p }
        } else {
            proof {
                lemma_dis_step_advances(prog, pc, rem, count);
            }
            let rest = dis_from(prog, p, rem2, count2);
            DisRun { lines: seq![line] + rest.lines, end: rest.end, pc: rest.pc }
        },
    }
}

/// The bytes of a text never run past the end of the program.
pub proof fn lemma_text_len_bound(prog: Seq<u8>, i: int)
    requires
        0 <= i <= prog.len(),
    ensures
        text_len(prog, i) <= prog.len() - i,
    decreases prog.len() - i,
{
    if i < prog.len() && prog[i] != 0 {
        lemma_text_len_bound(prog, i + 1);
    }
}

/// A listing line moves forward, by at most seven bytes past the end of the program.
pub proof fn lemma_dis_step_advances(prog: Seq<u8>, pc: usize, rem: i16, count: i16)
    requires
        prog.len() <= isize::MAX,
    ensures
        dis_step(prog, pc, rem, count) matches Ok((_, p, _, _)) ==> pc < p <= prog.len() + 7,
        dis_step(prog, pc, rem, count) matches Err(ListingEnd::InvalidString { start, len, .. })
            ==> start + len <= prog.len(),
{
    if pc < prog.len() {
        lemma_text_len_bound(prog, pc + 1);
    }
}

/// The values of the constant table that starts at `pc`; a crash when `pc` lies beyond the
/// end of the program.
pub open spec fn listed_constants(prog: Seq<u8>, size: Data, pc: int) -> Result<Seq<i64>, Crash> {
    if pc > prog.len() {
        Err(Crash::Overflow)
    } else {
        Ok(
            Seq::new(
                ((prog.len() - pc) / (size.width() as int)) as nat,
                |i: int| decode(size, prog.subrange(pc + size.width() * i, prog.len() as int)).value() as i64,
            ),
        )
    }
}

impl PL0VM {
    fn listed_arg_exec(&self, pc: usize) -> (r: (Option<i16>, usize))
        requires
            pc <= self.prog().len() + 8,
            self.prog().len() <= isize::MAX,
        ensures
            r == listed_arg(self.prog(), pc),
    {
        match self.read_arg(pc) {
            Some(a) => (Some(a), pc + 2),
            None => (None, pc),
        }
    }

    fn dis_line(&self, pc: usize, rem: i16, count: i16) -> (r: Result<(Line, usize, i16, i16), ListingEnd>)
        requires
            self.prog().len() <= isize::MAX,
        ensures
            r == dis_step(self.prog(), pc, rem, count),
    {
        let len = self.prog_len();
        if pc >= len {
            return Err(ListingEnd::InvalidPc(pc));
        }
        let byte = self.program()[pc];
        let op = match OpCode::from_byte(byte) {
            None => {
                return Err(ListingEnd::UnknownOpcode { at: pc, byte });
            },
            Some(op) => op,
        };
        let head = Header { at: pc, byte, op };
        let pc1 = pc + 1;
        let (operands, p, rem1, count1) = match op {
            OpCode::PushValueLocalVar | OpCode::PushValueMainVar | OpCode::PushAddressLocalVar
            | OpCode::PushAddressMainVar | OpCode::CallProc | OpCode::PushConstant => {
                let (a, p) = self.listed_arg_exec(pc1);
                (Operands::One(a), p, rem, count)
            },
            OpCode::Jump | OpCode::JumpIfFalse => {
                let a = match self.read_arg(pc1) {
                    None => {
                        return Err(ListingEnd::ArgMissing { line: head, size: None, pc: pc1 });
                    },
                    Some(a) => a,
                };
                let target = match (pc1 + 2).checked_add_signed(a as isize) {
                    None => {
                        return Err(ListingEnd::InvalidJump { line: head, pc: pc1, arg: a });
                    },
                    Some(t) => t,
                };
                (Operands::Jump { arg: a, target }, pc1 + 2, rem, count)
            },
            OpCode::PushValueGlobalVar | OpCode::PushAddressGlobalVar => {
                let (a, p) = self.listed_arg_exec(pc1);
                let (b, q) = self.listed_arg_exec(p);
                (Operands::Two(a, b), q, rem, count)
            },
            OpCode::EntryProc => {
                let size = match self.read_arg(pc1) {
                    None => {
                        return Err(ListingEnd::ArgMissing { line: head, size: None, pc: pc1 });
                    },
                    Some(v) => v,
                };
                let id = match self.read_arg(pc1 + 2) {
                    None => {
                        return Err(ListingEnd::ArgMissing { line: head, size: Some(size), pc: pc1 + 2 });
                    },
                    Some(v) => v,
                };
                let (v, p) = self.listed_arg_exec(pc1 + 4);
                if count == i16::MIN {
                    return Err(ListingEnd::Crash(Crash::Overflow));
                }
                (Operands::Entry { size, id, vars: v }, p, size, count - 1)
            },
            OpCode::PutString => {
                let n = self.text_span(pc1);
                if !self.text_is_utf8(pc1, n) {
                    return Err(ListingEnd::InvalidString { line: head, start: pc1, len: n });
                }
                (Operands::Text { start: pc1, len: n }, pc1 + n + 1, rem, count)
            },
            _ => (Operands::Nothing, pc1, rem, count),
        };
        let d = #[verifier::truncate] ((p - pc) as i16);
        match rem1.checked_sub(d) {
            None => Err(ListingEnd::Crash(Crash::Overflow)),
            Some(r2) => Ok((Line { head, operands }, p, r2, count1)),
        }
    }

    /// The listing of the program: `Err(InvalidFile)` when the header is refused; else the
    /// procedure count and word size of the header, one line per instruction of the code, how
    /// the code's listing ends, and the values of the constant table where it is listed.
    pub fn disassemble(&self) -> (r: Result<Listing, VmError>)
        ensures
            !header_ok(self.prog()) ==> r == Err::<Listing, VmError>(VmError::InvalidFile),
            header_ok(self.prog()) ==> (r matches Ok(l) && {
                &&& l.procedure_count == arg_at(self.prog(), 0).unwrap()
                &&& l.arch == arg_at(self.prog(), 2).unwrap()
                &&& if crate::vm::size_of_arch(l.arch) is None {
                    &&& l.end == ListingEnd::InvalidArch
                    &&& l.lines@.len() == 0
                    &&& l.constants matches Ok(v) && v@.len() == 0
                } else {
                    let run = dis_from(self.prog(), 4, 0, l.procedure_count);
                    &&& l.lines@ == run.lines
                    &&& l.end == run.end
                    &&& !lists_constants(run.end) ==> (l.constants matches Ok(v) && v@.len() == 0)
                    &&& lists_constants(run.end) ==> match listed_constants(self.prog(), self.word_size(), run.pc as int) {
                        Ok(c) => l.constants matches Ok(v) && v@ == c,
                        Err(e) => l.constants matches Err(f) && f == e,
                    }
                }
            }),
    {
        let len = self.prog_len();
        let prog = self.program();
        if len <= 4 || prog[3] > 0 {
            return Err(VmError::InvalidFile);
        }
        let procedure_count = match self.read_arg(0) {
            Some(v) => v,
            None => {
                return Err(VmError::InvalidFile);
            },
        };
        let arch = match self.read_arg(crate::ARG_SIZE) {
            Some(v) => v,
            None => {
                return Err(VmError::InvalidFile);
            },
        };
        if arch != 2 && arch != 4 && arch != 8 {
            return Ok(
                Listing {
                    procedure_count,
                    arch,
                    lines: Vec::new(),
                    end: ListingEnd::InvalidArch,
                    constants: Ok(Vec::new()),
                },
            );
        }
        let ghost total = dis_from(prog@, 4, 0, procedure_count);
        let mut lines: Vec<Line> = Vec::new();
        let mut pc: usize = 4;
        let mut rem: i16 = 0;
        let mut count: i16 = procedure_count;
        let mut end = ListingEnd::Done;
        let mut end_pc: usize = 0;
        loop
            invariant_except_break
                total.lines == lines@ + dis_from(prog@, pc, rem, count).lines,
                total.end == dis_from(prog@, pc, rem, count).end,
                total.pc == dis_from(prog@, pc, rem, count).pc,
                pc <= len + 7,
            invariant
                len == prog@.len(),
                prog@ == self.prog(),
                len <= isize::MAX,
            ensures
                total.lines == lines@,
                total.end == end,
                total.pc == end_pc,
            decreases len + 8 - pc,
        {
            proof {
                lemma_dis_step_advances(prog@, pc, rem, count);
            }
            match self.dis_line(pc, rem, count) {
                Err(e) => {
                    end = e;
                    end_pc = match e {
                        ListingEnd::UnknownOpcode { at, .. } => at,
                        ListingEnd::InvalidJump { pc: p, .. } => p,
                        ListingEnd::InvalidString { start, len: n, .. } => start + n + 1,
                        _ => pc,
                    };
                    assert(lines@ + Seq::<Line>::empty() =~= lines@);
                    break;
                },
                Ok((line, p, r2, c2)) => {
                    let ghost before = lines@;
                    lines.push(line);
                    if r2 <= 0 && c2 == 0 {
                        end = ListingEnd::Done;
                        end_pc = p;
                        assert(before + seq![line] =~= lines@);
                        break;
                    }
                    assert(before + (seq![line] + dis_from(prog@, p, r2, c2).lines) =~= lines@ + dis_from(prog@, p, r2, c2).lines);
                    pc = p;
                    rem = r2;
                    count = c2;
                },
            }
        }
        let listed = end == ListingEnd::Done || matches!(end, ListingEnd::UnknownOpcode { .. })
            || matches!(end, ListingEnd::InvalidJump { .. }) || matches!(end, ListingEnd::InvalidString { .. });
        let constants = if !listed {
            Ok(Vec::new())
        } else if end_pc > len {
            Err(Crash::Overflow)
        } else {
            Ok(self.constant_values(end_pc))
        };
        Ok(Listing { procedure_count, arch, lines, end, constants })
    }

    /// The values of the constant table that starts at `pc`.
    fn constant_values(&self, pc: usize) -> (v: Vec<i64>)
        requires
            pc <= self.prog().len(),
        ensures
            listed_constants(self.prog(), self.word_size(), pc as int) == Ok::<Seq<i64>, Crash>(v@),
    {
        let len = self.prog_len();
        let ds = self.data_size();
        let m = (len - pc) / ds;
        let ghost prog = self.prog();
        let ghost total = listed_constants(prog, self.word_size(), pc as int).unwrap();
        let mut values: Vec<i64> = Vec::new();
        let mut off = pc;
        let mut c: usize = 0;
        while c < m
            invariant
                len == prog.len(),
                prog == self.prog(),
                ds == self.word_size().width(),
                ds > 0,
                pc <= len,
                m == (len - pc) / (ds as int),
                total == listed_constants(prog, self.word_size(), pc as int).unwrap(),
                total.len() == m,
                c <= m,
                off == pc + ds * c,
                values@ =~= total.subrange(0, c as int),
            decreases m - c,
        {
            assert(off + ds <= len) by (nonlinear_arith)
                requires
                    off == pc + ds * c,
                    c < m,
                    m == (len - pc) / (ds as int),
                    ds > 0,
                    pc <= len,
            ;
            let d = self.read_data(off);
            values.push(d.unwrap().i64());
            off = off + ds;
            c = c + 1;
            assert(off == pc + ds * c) by (nonlinear_arith)
                requires
                    off == (pc + ds * (c - 1)) + ds,
            ;
        }
        assert(values@ =~= total);
        values
    }
}

} // verus!
