use vstd::bytes::*;
use vstd::prelude::*;

use crate::data::{decode, decode_word, make_word, word_of_bool, Data};
use crate::ARG_SIZE;

verus! {

/// The byte of the instruction that opens a procedure.
pub const ENTRY_PROC_BYTE: u8 = 0x1A;

/// A procedure of a loaded program.
#[derive(Clone, Copy, Debug, PartialEq, Eq, Structural)]
pub struct Procedure {
    /// Position of the procedure's entry instruction in the program.
    pub start_pos: usize,
    /// Start of the procedure's variables on the stack.
    pub frame_ptr: usize,
}

/// Why a run ended early with a message. Each variant stands for one message of the
/// machine; the values are those that the message shows.
#[derive(Clone, Copy, Debug, PartialEq, Eq, Structural)]
pub enum VmError {
    /// The file is too short, or its fourth byte is not 0.
    InvalidFile,
    /// The word size of the header is none of 2, 4 and 8.
    InvalidArch(i16),
    /// The scan for procedures ran out of the program.
    Preload,
    /// The scan for procedures found a procedure id outside the procedure table.
    InvalidPreloadProcedure,
    /// The byte at the given position encodes no instruction.
    UnknownOpcode(u8),
    /// An argument could not be read; the value is the position after it.
    InvalidArgRead(usize),
    /// No instruction could be read at the given position.
    InvalidPc(usize),
    /// A procedure entry names a negative procedure id.
    EnterInvalidProc(i16),
    /// A call names a negative procedure id.
    CallInvalidProc(i16),
    /// Negative address of a local variable to read.
    InvalidLocalVarVal(i16),
    /// Negative address of a main-procedure variable to read.
    InvalidMainVarVal(i16),
    /// Negative address of a variable of another procedure to read (address, procedure).
    InvalidGlobalVarVal(i16, usize),
    /// Negative address of a local variable to push.
    InvalidLocalVarAddr(i16),
    /// Negative address of a main-procedure variable to push.
    InvalidMainVarAddr(i16),
    /// Negative address of a variable of another procedure to push (address, procedure).
    InvalidGlobalVarAddr(i16, usize),
    /// Negative constant index.
    InvalidConstant(i16),
    /// The stack holds no word where one is read.
    InvalidStackRead,
    /// The text that starts at `start` and has `len` bytes is not valid UTF-8.
    InvalidString { start: usize, len: usize },
    /// A jump of the listing leads before the start of the address space (position, offset).
    InvalidJump(usize, i16),
}

/// Where the machine aborts (panics) instead of ending with a message.
#[derive(Clone, Copy, Debug, PartialEq, Eq, Structural)]
pub enum Crash {
    /// An index into the program, the procedures or the constants is out of range.
    IndexOutOfRange,
    /// A word is read where fewer bytes than its size are left.
    ShortRead,
    /// An integer computation overflows.
    Overflow,
    /// A division by zero.
    DivisionByZero,
    /// The stack would grow beyond what a vector can hold.
    CapacityOverflow,
    /// A procedure slot stayed empty after the scan for procedures.
    MissingProcedure,
    /// The instruction has no defined behaviour.
    NotImplemented,
}

/// How a computation of the machine ends when it does not succeed.
#[derive(Clone, Copy, Debug, PartialEq, Eq, Structural)]
pub enum Failure {
    /// The machine reports an error and stops.
    Error(VmError),
    /// The machine aborts here.
    Crash(Crash),
}

/// The argument (a little-endian `i16`) at position `i` of the program, if two bytes are there.
pub open spec fn arg_at(prog: Seq<u8>, i: int) -> Option<i16> {
    if 0 <= i && i + 2 <= prog.len() {
        Some(spec_u16_from_le_bytes(prog.subrange(i, i + 2)) as i16)
    } else {
        None
    }
}

/// Whether the program has a header that the machine accepts: more than four bytes,
/// of which the fourth is 0.
pub open spec fn header_ok(prog: Seq<u8>) -> bool {
    prog.len() > 4 && prog[3] == 0
}

/// The word size that a header value selects: 2, 4 or 8 bytes.
pub open spec fn size_of_arch(arch: i16) -> Option<Data> {
    if arch == 2 {
        Some(Data::B16(0))
    } else if arch == 4 {
        Some(Data::B32(0))
    } else if arch == 8 {
        Some(Data::B64(0))
    } else {
        None
    }
}

/// One step of the scan for procedures: the state after the byte at `pc`.
pub open spec fn scan_step(
    prog: Seq<u8>,
    pc: int,
    rem: i16,
    count: i16,
    procs: Seq<Option<Procedure>>,
) -> Result<(int, i16, i16, Seq<Option<Procedure>>), Failure> {
    if pc < 0 || pc >= prog.len() {
        Err(Failure::Error(VmError::Preload))
    } else if rem == 0 && prog[pc] == ENTRY_PROC_BYTE {
        match arg_at(prog, pc + 1) {
            None => Err(Failure::Error(VmError::Preload)),
            Some(size) => match arg_at(prog, pc + 3) {
                None => Err(Failure::Error(VmError::Preload)),
                Some(id) => {
                    let pid = id as usize;
                    if pid >= procs.len() {
                        Err(Failure::Error(VmError::InvalidPreloadProcedure))
                    } else if count == i16::MIN || size - 7 < i16::MIN {
                        Err(Failure::Crash(Crash::Overflow))
                    } else {
                        Ok(
                            (
                                pc + 7,
                                (size - 7) as i16,
                                (count - 1) as i16,
                                procs.update(
                                    pid as int,
                                    Some(Procedure { start_pos: pc as usize, frame_ptr: 0 }),
                                ),
                            ),
                        )
                    }
                },
            },
        }
    } else if rem - 1 < i16::MIN {
        Err(Failure::Crash(Crash::Overflow))
    } else {
        Ok((pc + 1, (rem - 1) as i16, count, procs))
    }
}

/// The scan for procedures, from position `pc` on: walks the program byte by byte, counts
/// down the bytes left in the current procedure, and records a procedure at each entry
/// instruction that follows the end of the previous one. Stops when no bytes are left in the
/// current procedure and all procedures have been found; gives the position after the code.
pub open spec fn scan(
    prog: Seq<u8>,
    pc: int,
    rem: i16,
    count: i16,
    procs: Seq<Option<Procedure>>,
) -> Result<(int, Seq<Option<Procedure>>), Failure>
    decreases prog.len() + 8 - pc,
{
    match scan_step(prog, pc, rem, count, procs) {
        Err(f) => Err(f),
        Ok((pc2, rem2, count2, procs2)) => {
            if rem2 <= 0 && count2 == 0 {
                Ok((pc2, procs2))
            } else {
                scan(prog, pc2, rem2, count2, procs2)
            }
        },
    }
}

/// A procedure table of `n` slots, none of them filled.
pub open spec fn empty_slots(n: nat) -> Seq<Option<Procedure>> {
    Seq::new(n, |i: int| None)
}

/// The procedures of a finished scan, when every slot was filled.
pub open spec fn all_present(procs: Seq<Option<Procedure>>) -> bool {
    forall|i: int| 0 <= i < procs.len() ==> #[trigger] procs[i] is Some
}

/// The words of the constant table, which fills the program after the code at `pc`.
pub open spec fn constants_at(prog: Seq<u8>, bits: Data, pc: int) -> Seq<Data> {
    Seq::new(
        ((prog.len() - pc) / (bits.width() as int)) as nat,
        |i: int| decode(bits, prog.subrange(pc + bits.width() * i, prog.len() as int)),
    )
}

/// What loading the procedures and constants of a program gives.
pub open spec fn load_spec(prog: Seq<u8>, bits: Data) -> Result<
    (Seq<Procedure>, Seq<Data>),
    Failure,
> {
    let count = arg_at(prog, 0).unwrap();
    if count < 0 {
        Err(Failure::Crash(Crash::CapacityOverflow))
    } else {
        match scan(prog, 4, 0, count, empty_slots(count as nat)) {
            Err(f) => Err(f),
            Ok((pc, procs)) => if !all_present(procs) {
                Err(Failure::Crash(Crash::MissingProcedure))
            } else if pc > prog.len() {
                Err(Failure::Crash(Crash::Overflow))
            } else {
                Ok((procs.map_values(|p: Option<Procedure>| p.unwrap()), constants_at(prog, bits, pc)))
            },
        }
    }
}

/// A virtual machine for the bytecode of a PL/0 compiler.
pub struct PL0VM {
    program: Vec<u8>,
    bits: Data,
    debug: bool,
}

impl PL0VM {
    #[verifier::type_invariant]
    spec fn fits(self) -> bool {
        self.program.len() <= isize::MAX
    }

    /// The bytes of the loaded program.
    pub closed spec fn prog(&self) -> Seq<u8> {
        self.program@
    }

    /// A word of the program's word size (its value means nothing).
    pub closed spec fn word_size(&self) -> Data {
        self.bits
    }

    /// Whether the machine traces what it does.
    pub closed spec fn is_debug(&self) -> bool {
        self.debug
    }

    /// A machine with no program and a word size of 16 bits.
    pub fn new(debug: bool) -> (vm: PL0VM)
        ensures
            vm.prog() == Seq::<u8>::empty(),
            vm.word_size() == Data::B16(0),
            vm.is_debug() == debug,
    {
        PL0VM { program: Vec::new(), bits: Data::B16(0), debug }
    }

    /// The bytes of the loaded program.
    pub fn program(&self) -> (p: &Vec<u8>)
        ensures
            p@ == self.prog(),
            p@.len() <= isize::MAX,
    {
        proof {
            use_type_invariant(self);
        }
        &self.program
    }

    /// The number of bytes of the program.
    pub fn prog_len(&self) -> (n: usize)
        ensures
            n == self.prog().len(),
            n <= isize::MAX,
    {
        proof {
            use_type_invariant(self);
        }
        self.program.len()
    }

    /// A word of the program's word size.
    pub fn bits(&self) -> (d: Data)
        ensures
            d == self.word_size(),
    {
        self.bits
    }

    /// Whether the machine traces what it does.
    pub fn debug(&self) -> (b: bool)
        ensures
            b == self.is_debug(),
    {
        self.debug
    }

    /// The number of bytes of a word.
    pub fn data_size(&self) -> (n: usize)
        ensures
            n == self.word_size().width(),
    {
        self.bits.size()
    }

    /// The word 1.
    pub fn data_true(&self) -> (d: Data)
        ensures
            d == word_of_bool(self.word_size(), true),
            d.value() == 1,
            d.same_size(self.word_size()),
    {
        make_word(&self.bits, 1)
    }

    /// The word 0.
    pub fn data_false(&self) -> (d: Data)
        ensures
            d == word_of_bool(self.word_size(), false),
            d.value() == 0,
            d.same_size(self.word_size()),
    {
        make_word(&self.bits, 0)
    }

    /// The word 1 for true, 0 for false.
    pub fn data_bool(&self, val: bool) -> (d: Data)
        ensures
            d == word_of_bool(self.word_size(), val),
            d.value() == (if val { 1int } else { 0int }),
            d.same_size(self.word_size()),
    {
        if val {
            self.data_true()
        } else {
            self.data_false()
        }
    }

    /// Loads a program from its bytes. The word size comes from the second argument of the
    /// header; the result says whether it was 2, 4 or 8. The bytes are kept either way; when
    /// the word size is refused, the previous word size stays.
    pub fn load_from_bytes(&mut self, bytes: Vec<u8>) -> (ok: bool)
        requires
            bytes@.len() <= isize::MAX,
        ensures
            final(self).prog() == bytes@,
            final(self).is_debug() == old(self).is_debug(),
            ok == (arg_at(bytes@, 2) matches Some(a) && size_of_arch(a) is Some),
            ok ==> final(self).word_size() == size_of_arch(arg_at(bytes@, 2).unwrap()).unwrap(),
            !ok ==> final(self).word_size() == old(self).word_size(),
    {
        self.program = bytes;
        match self.read_arg(ARG_SIZE) {
            Some(val) => {
                if val == 2 {
                    self.bits = Data::B16(0);
                } else if val == 4 {
                    self.bits = Data::B32(0);
                } else if val == 8 {
                    self.bits = Data::B64(0);
                } else {
                    return false;
                }
                true
            },
            None => false,
        }
    }

    /// A machine that holds the program of the given bytes (see `load_from_bytes`).
    pub fn from_bytes(debug: bool, bytes: Vec<u8>) -> (vm: PL0VM)
        requires
            bytes@.len() <= isize::MAX,
        ensures
            vm.prog() == bytes@,
            vm.is_debug() == debug,
            vm.word_size() == match arg_at(bytes@, 2) {
                Some(a) => match size_of_arch(a) {
                    Some(d) => d,
                    None => Data::B16(0),
                },
                None => Data::B16(0),
            },
    {
        let mut vm = PL0VM::new(debug);
        vm.load_from_bytes(bytes);
        vm
    }

    /// The argument at position `offset` of the program, if two bytes are there.
    pub fn read_arg(&self, offset: usize) -> (a: Option<i16>)
        requires
            offset + ARG_SIZE <= usize::MAX,
        ensures
            a == arg_at(self.prog(), offset as int),
    {
        proof {
            use_type_invariant(self);
        }
        let len = self.program.len();
        if offset <= len && len - offset >= ARG_SIZE {
            let s = vstd::slice::slice_subrange(self.program.as_slice(), offset, offset + ARG_SIZE);
            Some(u16_from_le_bytes(s) as i16)
        } else {
            None
        }
    }

    /// The word at the start of the given bytes, if there are bytes.
    pub fn bytes_to_data(&self, bytes: &Option<&[u8]>) -> (d: Option<Data>)
        requires
            bytes matches Some(b) ==> b@.len() >= self.word_size().width(),
        ensures
            d == match bytes {
                Some(b) => Some(decode(self.word_size(), b@)),
                None => None,
            },
    {
        match bytes {
            Some(b) => Some(decode_word(&self.bits, b)),
            None => None,
        }
    }

    /// The word at position `offset` of the program; `None` when the position lies beyond
    /// the end of the program.
    pub fn read_data(&self, offset: usize) -> (d: Option<Data>)
        requires
            offset > self.prog().len() || offset + self.word_size().width() <= self.prog().len(),
        ensures
            d == if offset <= self.prog().len() {
                Some(decode(self.word_size(), self.prog().subrange(offset as int, self.prog().len() as int)))
            } else {
                None
            },
    {
        if offset <= self.program.len() {
            let s = vstd::slice::slice_subrange(self.program.as_slice(), offset, self.program.len());
            self.bytes_to_data(&Some(s))
        } else {
            self.bytes_to_data(&None)
        }
    }

    /// Loads the procedure table and the constant table of the program: the procedures
    /// are those that the scan for procedures finds, each with its frame at 0; the constants
    /// fill the rest of the program, one word each.
    pub fn load_data(&self) -> (r: Result<(Vec<Procedure>, Vec<Data>), Failure>)
        requires
            self.prog().len() >= 2,
        ensures
            match load_spec(self.prog(), self.word_size()) {
                Ok((procs, consts)) => r matches Ok((p, c)) && p@ == procs && c@ == consts,
                Err(f) => r == Err::<(Vec<Procedure>, Vec<Data>), Failure>(f),
            },
    {
        proof {
            use_type_invariant(self);
        }
        let ghost prog = self.prog();
        let count = match self.read_arg(0) {
            Some(c) => c,
            None => {
                return Err(Failure::Crash(Crash::IndexOutOfRange));
            },
        };
        if count < 0 {
            return Err(Failure::Crash(Crash::CapacityOverflow));
        }
        let n = count as usize;
        let mut slots: Vec<Option<Procedure>> = Vec::new();
        let mut i: usize = 0;
        while i < n
            invariant
                i <= n,
                n == count as int,
                slots@ =~= Seq::new(i as nat, |j: int| None::<Procedure>),
            decreases n - i,
        {
            slots.push(None);
            i = i + 1;
        }
        let ghost start = slots@;
        assert(start =~= empty_slots(count as nat));
        let len = self.program.len();
        let mut pc: usize = 4;
        let mut rem: i16 = 0;
        let mut cnt: i16 = count;
        loop
            invariant_except_break
                scan(prog, 4, 0, count, start) == scan(prog, pc as int, rem, cnt, slots@),
            invariant
                len == prog.len(),
                len <= isize::MAX,
                prog == self.prog(),
                4 <= pc <= len + 8,
                arg_at(prog, 0) == Some(count),
                count >= 0,
                start == empty_slots(count as nat),
            ensures
                scan(prog, 4, 0, count, start) == Ok::<(int, Seq<Option<Procedure>>), Failure>((pc as int, slots@)),
            decreases len + 8 - pc,
        {
            let ghost (pc0, rem0, cnt0, slots0) = (pc as int, rem, cnt, slots@);
            if pc >= len {
                return Err(Failure::Error(VmError::Preload));
            }
            let byte = self.program[pc];
            let next_pc;
            let next_rem;
            let next_cnt;
            if rem == 0 && byte == ENTRY_PROC_BYTE {
                let size = match self.read_arg(pc + 1) {
                    Some(v) => v,
                    None => {
                        return Err(Failure::Error(VmError::Preload));
                    },
                };
                let id = match self.read_arg(pc + 3) {
                    Some(v) => v,
                    None => {
                        return Err(Failure::Error(VmError::Preload));
                    },
                };
                let pid = #[verifier::truncate] (id as usize);
                if pid >= slots.len() {
                    return Err(Failure::Error(VmError::InvalidPreloadProcedure));
                }
                if cnt == i16::MIN || size < i16::MIN + 7 {
                    return Err(Failure::Crash(Crash::Overflow));
                }
                slots.set(pid, Some(Procedure { start_pos: pc, frame_ptr: 0 }));
                next_pc = pc + 7;
                next_rem = size - 7;
                next_cnt = cnt - 1;
            } else {
                if rem == i16::MIN {
                    return Err(Failure::Crash(Crash::Overflow));
                }
                next_pc = pc + 1;
                next_rem = rem - 1;
                next_cnt = cnt;
            }
            pc = next_pc;
            rem = next_rem;
            cnt = next_cnt;
            assert(scan_step(prog, pc0, rem0, cnt0, slots0) == Ok::<(int, i16, i16, Seq<Option<Procedure>>), Failure>((pc as int, rem, cnt, slots@)));
            if rem <= 0 && cnt == 0 {
                break;
            }
        }
        let ghost found = slots@;
        assert(scan(prog, 4, 0, count, start) == Ok::<(int, Seq<Option<Procedure>>), Failure>((pc as int, found)));
        let mut procs: Vec<Procedure> = Vec::new();
        let mut k: usize = 0;
        while k < slots.len()
            invariant
                k <= slots@.len(),
                slots@ == found,
                arg_at(prog, 0) == Some(count),
                count >= 0,
                start == empty_slots(count as nat),
                prog == self.prog(),
                scan(prog, 4, 0, count, start) == Ok::<(int, Seq<Option<Procedure>>), Failure>((pc as int, found)),
                procs@ =~= found.subrange(0, k as int).map_values(|p: Option<Procedure>| p.unwrap()),
                forall|j: int| 0 <= j < k ==> #[trigger] found[j] is Some,
            decreases slots@.len() - k,
        {
            match slots[k] {
                Some(p) => procs.push(p),
                None => {
                    return Err(Failure::Crash(Crash::MissingProcedure));
                },
            }
            k = k + 1;
        }
        assert(found.subrange(0, found.len() as int) =~= found);
        if pc > len {
            return Err(Failure::Crash(Crash::Overflow));
        }
        let ds = self.data_size();
        let m = (len - pc) / ds;
        let ghost total = constants_at(prog, self.bits, pc as int);
        let mut consts: Vec<Data> = Vec::new();
        let mut off = pc;
        let mut c: usize = 0;
        while c < m
            invariant
                len == prog.len(),
                prog == self.prog(),
                ds == self.word_size().width(),
                ds > 0,
                pc <= len,
                m == (len - pc) / (ds as int),
                total == constants_at(prog, self.bits, pc as int),
                total.len() == m,
                c <= m,
                off == pc + ds * c,
                consts@ =~= total.subrange(0, c as int),
            decreases m - c,
        {
            assert(off + ds <= len) by (nonlinear_arith)
                requires
                    off == pc + ds * c,
                    c < m,
                    m == (len - pc) / (ds as int),
                    ds > 0,
                    pc <= len,
            ;
            let d = self.read_data(off);
            consts.push(d.unwrap());
            off = off + ds;
            c = c + 1;
            assert(off == pc + ds * c) by (nonlinear_arith)
                requires
                    off == (pc + ds * (c - 1)) + ds,
            ;
        }
        Ok((procs, consts))
    }
}

} // verus!

verus! {

/// Every filled slot of the table names a position of the program that holds an entry
/// instruction, with its frame at 0.
pub open spec fn slots_at_entries(prog: Seq<u8>, procs: Seq<Option<Procedure>>) -> bool {
    forall|i: int|
        0 <= i < procs.len() && #[trigger] procs[i] is Some ==> {
            let p = procs[i].unwrap();
            &&& p.start_pos < prog.len()
            &&& prog[p.start_pos as int] == ENTRY_PROC_BYTE
            &&& p.frame_ptr == 0
        }
}

proof fn lemma_scan_keeps_entries(
    prog: Seq<u8>,
    pc: int,
    rem: i16,
    count: i16,
    procs: Seq<Option<Procedure>>,
)
    requires
        slots_at_entries(prog, procs),
        prog.len() <= usize::MAX,
    ensures
        scan(prog, pc, rem, count, procs) matches Ok((_, found)) ==> slots_at_entries(prog, found),
    decreases prog.len() + 8 - pc,
{
    match scan_step(prog, pc, rem, count, procs) {
        Err(_) => {},
        Ok((pc2, rem2, count2, procs2)) => {
            assert forall|i: int|
                0 <= i < procs2.len() && #[trigger] procs2[i] is Some implies {
                    let p = procs2[i].unwrap();
                    &&& p.start_pos < prog.len()
                    &&& prog[p.start_pos as int] == ENTRY_PROC_BYTE
                    &&& p.frame_ptr == 0
                } by {
                if procs2[i] != procs[i] {
                    assert(procs2[i].unwrap().start_pos == pc as usize);
                }
            }
            if !(rem2 <= 0 && count2 == 0) {
                lemma_scan_keeps_entries(prog, pc2, rem2, count2, procs2);
            }
        },
    }
}

/// Each procedure that loading finds starts at an entry instruction of the program and has
/// its frame at 0.
pub proof fn lemma_loaded_procedures_start_at_entries(prog: Seq<u8>, bits: Data)
    requires
        2 <= prog.len() <= usize::MAX,
    ensures
        load_spec(prog, bits) matches Ok((procs, _)) ==> forall|i: int|
            0 <= i < procs.len() ==> {
                &&& (#[trigger] procs[i]).start_pos < prog.len()
                &&& prog[procs[i].start_pos as int] == ENTRY_PROC_BYTE
                &&& procs[i].frame_ptr == 0
            },
{
    let count = arg_at(prog, 0).unwrap();
    if count >= 0 {
        lemma_scan_keeps_entries(prog, 4, 0, count, empty_slots(count as nat));
    }
}

} // verus!
