use pl0_vm::data::{make_word, Data};
use pl0_vm::disasm::{Header, ListingEnd, Operands};
use pl0_vm::opcodes::OpCode;
use pl0_vm::stack::{offsetted, pop_data, push_data, read_stack, store};
use pl0_vm::vm::{Crash, VmError, PL0VM};
use pl0_vm::ARG_SIZE;

#[test]
fn opcode_bytes_round_trip() {
    for b in 0u8..=0x22 {
        let op = OpCode::from_byte(b).unwrap();
        assert_eq!(op.to_byte(), b);
    }
    assert_eq!(OpCode::from_byte(0x23), None);
    assert_eq!(OpCode::from_byte(0xFF), None);
    assert_eq!(OpCode::from_byte(0x1A), Some(OpCode::EntryProc));
    assert_eq!(OpCode::EntryProcEx.to_byte(), 0x22);
    assert_eq!(OpCode::PushValueLocalVar.name(), "PushValueLocalVar");
    assert_eq!(OpCode::OpAddAddr.name(), "OpAddAddr");
}

#[test]
fn data_values_and_bytes() {
    assert_eq!(Data::B16(-2).i64(), -2);
    assert_eq!(Data::B32(70000).i64(), 70000);
    assert_eq!(Data::B64(i64::MIN).i64(), i64::MIN);
    assert_eq!(Data::B16(0x1234).to_bytes(), vec![0x34, 0x12]);
    assert_eq!(Data::B32(-1).to_bytes(), vec![0xFF; 4]);
    assert_eq!(Data::B64(1).to_bytes(), vec![1, 0, 0, 0, 0, 0, 0, 0]);
    let v: i64 = Data::B32(-7).into();
    assert_eq!(v, -7);
    assert_eq!(make_word(&Data::B16(0), 65537), Data::B16(1));
    assert_eq!(make_word(&Data::B32(0), -1), Data::B32(-1));
}

#[test]
fn machine_words() {
    let vm = PL0VM::new(true);
    assert!(vm.debug());
    assert_eq!(vm.data_size(), 2);
    assert_eq!(vm.data_true(), Data::B16(1));
    assert_eq!(vm.data_false(), Data::B16(0));
    assert_eq!(vm.data_bool(true), Data::B16(1));
    let vm = PL0VM::from_bytes(false, vec![1, 0, 8, 0, 0x1E]);
    assert_eq!(vm.data_size(), 8);
    assert_eq!(vm.data_bool(false), Data::B64(0));
}

#[test]
fn loading_sets_the_word_size() {
    let mut vm = PL0VM::new(false);
    assert!(vm.load_from_bytes(vec![0, 0, 4, 0, 0]));
    assert_eq!(vm.bits(), Data::B32(0));
    assert!(!vm.load_from_bytes(vec![0, 0, 5, 0, 0]));
    assert_eq!(vm.bits(), Data::B32(0));
    assert_eq!(vm.program(), &vec![0, 0, 5, 0, 0]);
    assert!(!vm.load_from_bytes(vec![0, 0, 2]));
}

#[test]
fn arguments_and_data_of_the_program() {
    let vm = PL0VM::from_bytes(false, vec![1, 0, 2, 0, 0xFE, 0xFF, 0x05]);
    assert_eq!(vm.read_arg(0), Some(1));
    assert_eq!(vm.read_arg(ARG_SIZE), Some(2));
    assert_eq!(vm.read_arg(4), Some(-2));
    assert_eq!(vm.read_arg(6), None);
    assert_eq!(vm.read_arg(100), None);
    assert_eq!(vm.read_data(4), Some(Data::B16(-2)));
    assert_eq!(vm.read_data(8), None);
    assert_eq!(vm.bytes_to_data(&Some(&[0x01, 0x01, 0x09][..])), Some(Data::B16(0x101)));
    assert_eq!(vm.bytes_to_data(&None), None);
}

#[test]
fn stack_push_then_pop() {
    let mut s = vec![9u8];
    push_data(&mut s, Data::B32(-5));
    assert_eq!(s.len(), 5);
    assert_eq!(pop_data(&Data::B32(0), &mut s), Some(Data::B32(-5)));
    assert_eq!(s, vec![9u8]);
    assert_eq!(pop_data(&Data::B16(0), &mut s), None);
    assert_eq!(s, vec![9u8]);
}

#[test]
fn stack_store_then_read() {
    let mut s = vec![1u8, 2, 3];
    assert_eq!(store(&mut s, 5, Data::B16(0x0102)), Ok(()));
    assert_eq!(s, vec![1, 2, 3, 0, 0, 2, 1]);
    assert_eq!(read_stack(&Data::B16(0), &s, 5), Ok(Some(Data::B16(0x0102))));
    assert_eq!(store(&mut s, 1, Data::B16(-1)), Ok(()));
    assert_eq!(s, vec![1, 0xFF, 0xFF, 0, 0, 2, 1]);
    assert_eq!(read_stack(&Data::B16(0), &s, 8), Ok(None));
    assert_eq!(read_stack(&Data::B16(0), &s, 6), Err(Crash::ShortRead));
    assert_eq!(store(&mut s, usize::MAX, Data::B16(0)), Err(Crash::Overflow));
    assert_eq!(store(&mut s, usize::MAX - 4, Data::B16(0)), Err(Crash::CapacityOverflow));
    assert_eq!(offsetted(3, -3), Some(0));
    assert_eq!(offsetted(3, -4), None);
}

/// A machine that waits for a number to store in its first local variable.
fn waiting_machine() -> (PL0VM, pl0_vm::machine::ExecState, Data) {
    // header, EntryProc (length 11, id 0, 2 bytes), PushAddressLocalVar 0, InputToAddr
    let bytes = vec![1, 0, 2, 0, 0x1A, 11, 0, 0, 0, 2, 0, 0x03, 0, 0, 0x09];
    let vm = PL0VM::from_bytes(false, bytes);
    let mut st = vm.start().unwrap();
    vm.try_step(&mut st).unwrap();
    vm.try_step(&mut st).unwrap();
    let addr = match vm.try_step(&mut st).unwrap() {
        pl0_vm::machine::Event::AwaitInput(a) => a,
        other => panic!("unexpected {:?}", other),
    };
    (vm, st, addr)
}

fn input_value(line: &str) -> Option<i16> {
    let (vm, mut st, addr) = waiting_machine();
    match vm.provide_input(&mut st, addr, line) {
        Ok(true) => Some(i16::from_le_bytes([st.stack[0], st.stack[1]])),
        Ok(false) => None,
        Err(c) => panic!("crash {:?}", c),
    }
}

#[test]
fn input_lines_are_trimmed_and_parsed() {
    assert_eq!(input_value("+5"), Some(5));
    assert_eq!(input_value("-0"), Some(0));
    assert_eq!(input_value("\t 12 \n"), Some(12));
    assert_eq!(input_value("\u{3000}7\u{85}"), Some(7));
    assert_eq!(input_value("-9223372036854775808"), Some(0));
    assert_eq!(input_value("9223372036854775808"), None);
    assert_eq!(input_value(""), None);
    assert_eq!(input_value("-"), None);
    assert_eq!(input_value("1 2"), None);
    assert_eq!(input_value("0x10"), None);
}

#[test]
fn program_texts_are_decoded() {
    let vm = PL0VM::from_bytes(false, vec![1, 0, 2, 0, 0x68, 0x69, 0xC3, 0]);
    assert_eq!(vm.text_span(4), 3);
    assert_eq!(vm.text_at(4, 2), Some("hi".to_string()));
    assert!(vm.text_is_utf8(4, 2));
    assert_eq!(vm.text_at(4, 3), None);
    assert!(!vm.text_is_utf8(4, 3));
}

fn listing_program() -> Vec<u8> {
    // two procedures: 1 (jump, string) and main (global push, call, entry)
    let mut p = vec![2, 0, 2, 0];
    // procedure 1 at 4: EntryProc len 15, id 1, vars 0
    p.extend_from_slice(&[0x1A, 15, 0, 1, 0, 0, 0]);
    p.extend_from_slice(&[0x18, 0xFE, 0xFF]); // Jump -2
    p.extend_from_slice(&[0x1B, b'o', b'k', 0]); // PutString "ok"
    p.push(0x17); // ReturnProc
    // procedure 0 at 19: EntryProc len 14, id 0, vars 2
    p.extend_from_slice(&[0x1A, 14, 0, 0, 0, 2, 0]);
    p.extend_from_slice(&[0x02, 3, 0, 1, 0]); // PushValueGlobalVar 3, 1
    p.push(0x08); // OutputValue
    p.push(0x17); // ReturnProc
    p.extend_from_slice(&[0x2A, 0x00, 0xFF, 0xFF]); // constants 42, -1
    p
}

#[test]
fn disassembly_lists_lines_and_constants() {
    let vm = PL0VM::from_bytes(false, listing_program());
    let l = vm.disassemble().unwrap();
    assert_eq!(l.procedure_count, 2);
    assert_eq!(l.arch, 2);
    assert_eq!(l.end, ListingEnd::Done);
    let ops: Vec<OpCode> = l.lines.iter().map(|line| line.head.op).collect();
    assert_eq!(
        ops,
        vec![
            OpCode::EntryProc,
            OpCode::Jump,
            OpCode::PutString,
            OpCode::ReturnProc,
            OpCode::EntryProc,
            OpCode::PushValueGlobalVar,
            OpCode::OutputValue,
            OpCode::ReturnProc,
        ]
    );
    assert_eq!(l.lines[0].operands, Operands::Entry { size: 15, id: 1, vars: Some(0) });
    assert_eq!(l.lines[1].operands, Operands::Jump { arg: -2, target: 12 });
    assert_eq!(l.lines[2].operands, Operands::Text { start: 15, len: 2 });
    assert_eq!(l.lines[5].operands, Operands::Two(Some(3), Some(1)));
    assert_eq!(l.lines[5].head, Header { at: 26, byte: 0x02, op: OpCode::PushValueGlobalVar });
    assert_eq!(l.constants, Ok(vec![42, -1]));
}

#[test]
fn disassembly_of_bad_programs() {
    let vm = PL0VM::from_bytes(false, vec![1, 0, 2]);
    assert_eq!(vm.disassemble().err(), Some(VmError::InvalidFile));
    let vm = PL0VM::from_bytes(false, vec![1, 0, 6, 0, 0x1E]);
    let l = vm.disassemble().unwrap();
    assert_eq!(l.end, ListingEnd::InvalidArch);
    assert!(l.lines.is_empty());
    // an unknown byte ends the code; the constants are listed from there
    let vm = PL0VM::from_bytes(false, vec![1, 0, 2, 0, 0xEE, 7, 0]);
    let l = vm.disassemble().unwrap();
    assert_eq!(l.end, ListingEnd::UnknownOpcode { at: 4, byte: 0xEE });
    assert_eq!(l.constants, Ok(vec![0x07EE]));
    // a jump argument that is missing
    let vm = PL0VM::from_bytes(false, vec![1, 0, 2, 0, 0x18, 1]);
    let l = vm.disassemble().unwrap();
    assert_eq!(
        l.end,
        ListingEnd::ArgMissing { line: Header { at: 4, byte: 0x18, op: OpCode::Jump }, size: None, pc: 5 }
    );
    // a string without terminator at the end: the constant table would start past the end
    let vm = PL0VM::from_bytes(false, vec![1, 0, 2, 0, 0x1B, 0xFF]);
    let l = vm.disassemble().unwrap();
    assert_eq!(
        l.end,
        ListingEnd::InvalidString { line: Header { at: 4, byte: 0x1B, op: OpCode::PutString }, start: 5, len: 1 }
    );
    assert_eq!(l.constants, Err(Crash::Overflow));
    // running out of code
    let vm = PL0VM::from_bytes(false, vec![1, 0, 2, 0, 0x08]);
    let l = vm.disassemble().unwrap();
    assert_eq!(l.end, ListingEnd::InvalidPc(5));
    assert_eq!(l.lines.len(), 1);
}
