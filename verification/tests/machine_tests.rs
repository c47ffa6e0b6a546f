use pl0_vm::data::Data;
use pl0_vm::machine::{Event, ExecState, Note};
use pl0_vm::opcodes::OpCode;
use pl0_vm::vm::{Crash, Failure, VmError, PL0VM};

/// Builds a program: header (procedure count, word size), code, constant table.
fn program(procs: i16, arch: i16, code: &[u8], constants: &[u8]) -> Vec<u8> {
    let mut p = Vec::new();
    p.extend_from_slice(&procs.to_le_bytes());
    p.extend_from_slice(&arch.to_le_bytes());
    p.extend_from_slice(code);
    p.extend_from_slice(constants);
    p
}

/// A procedure: entry instruction (length, id, variable bytes) followed by its body.
fn procedure(id: i16, vars: i16, body: &[u8]) -> Vec<u8> {
    let len = (7 + body.len()) as i16;
    let mut p = vec![0x1A];
    p.extend_from_slice(&len.to_le_bytes());
    p.extend_from_slice(&id.to_le_bytes());
    p.extend_from_slice(&vars.to_le_bytes());
    p.extend_from_slice(body);
    p
}

fn op(o: OpCode) -> u8 {
    o.to_byte()
}

fn with_arg(o: OpCode, a: i16) -> Vec<u8> {
    let mut v = vec![o.to_byte()];
    v.extend_from_slice(&a.to_le_bytes());
    v
}

fn consts16(values: &[i16]) -> Vec<u8> {
    values.iter().flat_map(|v| v.to_le_bytes()).collect()
}

#[derive(Debug, PartialEq)]
enum Outcome {
    Exit,
    End,
    Stop(VmError),
    Crash(Crash),
}

/// Runs a program to its end; inputs are handed over line by line.
fn run(vm: &PL0VM, inputs: &[&str]) -> (Vec<String>, Outcome, ExecState) {
    let mut st = vm.start().expect("start failed");
    let mut out = Vec::new();
    let mut inputs = inputs.iter();
    for _ in 0..10_000 {
        match vm.try_step(&mut st) {
            Err(c) => return (out, Outcome::Crash(c), st),
            Ok(Event::Next(_)) => {}
            Ok(Event::Print(v)) => out.push(v.to_string()),
            Ok(Event::Text { start, len }) => out.push(vm.text_at(start, len).unwrap()),
            Ok(Event::AwaitInput(addr)) => loop {
                let line = inputs.next().expect("no more input");
                match vm.provide_input(&mut st, addr, line) {
                    Ok(true) => break,
                    Ok(false) => out.push("invalid input".to_string()),
                    Err(c) => return (out, Outcome::Crash(c), st),
                }
            },
            Ok(Event::Exit) => return (out, Outcome::Exit, st),
            Ok(Event::End) => return (out, Outcome::End, st),
            Ok(Event::Stop(e)) => return (out, Outcome::Stop(e), st),
        }
    }
    panic!("program did not end");
}

fn vm_of(procs: i16, code: &[u8], constants: &[u8]) -> PL0VM {
    PL0VM::from_bytes(false, program(procs, 2, code, constants))
}

fn main_proc(body: &[u8]) -> Vec<u8> {
    procedure(0, 4, body)
}

#[test]
fn prints_a_constant() {
    let mut body = with_arg(OpCode::PushConstant, 0);
    body.push(op(OpCode::OutputValue));
    body.push(op(OpCode::ReturnProc));
    let vm = vm_of(1, &main_proc(&body), &consts16(&[42]));
    let (out, end, _) = run(&vm, &[]);
    assert_eq!(out, vec!["42"]);
    assert_eq!(end, Outcome::Exit);
}

fn binary(o: OpCode, a: i16, b: i16) -> (Vec<String>, Outcome) {
    let mut body = with_arg(OpCode::PushConstant, 0);
    body.extend(with_arg(OpCode::PushConstant, 1));
    body.push(op(o));
    body.push(op(OpCode::OutputValue));
    body.push(op(OpCode::EndOfCode));
    let vm = vm_of(1, &main_proc(&body), &consts16(&[a, b]));
    let (out, end, _) = run(&vm, &[]);
    (out, end)
}

#[test]
fn arithmetic_on_16_bit_words() {
    assert_eq!(binary(OpCode::OpAdd, 3, 4).0, vec!["7"]);
    assert_eq!(binary(OpCode::OpSubtract, 3, 4).0, vec!["-1"]);
    assert_eq!(binary(OpCode::OpMultiply, -6, 7).0, vec!["-42"]);
    // the exact result is cut to the word size
    assert_eq!(binary(OpCode::OpAdd, 30000, 30000).0, vec!["-5536"]);
    assert_eq!(binary(OpCode::OpAdd, 1, 2).1, Outcome::End);
}

#[test]
fn division_rounds_toward_zero() {
    assert_eq!(binary(OpCode::OpDivide, -7, 2).0, vec!["-3"]);
    assert_eq!(binary(OpCode::OpDivide, 7, -2).0, vec!["-3"]);
    assert_eq!(binary(OpCode::OpDivide, -7, -2).0, vec!["3"]);
    assert_eq!(binary(OpCode::OpDivide, i16::MIN, -1).0, vec!["-32768"]);
}

#[test]
fn division_by_zero_aborts() {
    assert_eq!(binary(OpCode::OpDivide, 1, 0).1, Outcome::Crash(Crash::DivisionByZero));
}

#[test]
fn comparisons_push_one_or_zero() {
    assert_eq!(binary(OpCode::CompareEq, 2, 2).0, vec!["1"]);
    assert_eq!(binary(OpCode::CompareNotEq, 2, 2).0, vec!["0"]);
    assert_eq!(binary(OpCode::CompareLT, 1, 2).0, vec!["1"]);
    assert_eq!(binary(OpCode::CompareGT, 1, 2).0, vec!["0"]);
    assert_eq!(binary(OpCode::CompareLTEq, 2, 2).0, vec!["1"]);
    assert_eq!(binary(OpCode::CompareGTEq, 1, 2).0, vec!["0"]);
}

fn unary(o: OpCode, a: i16) -> (Vec<String>, Outcome) {
    let mut body = with_arg(OpCode::PushConstant, 0);
    body.push(op(o));
    body.push(op(OpCode::OutputValue));
    body.push(op(OpCode::EndOfCode));
    let vm = vm_of(1, &main_proc(&body), &consts16(&[a]));
    let (out, end, _) = run(&vm, &[]);
    (out, end)
}

#[test]
fn negation_and_oddness() {
    assert_eq!(unary(OpCode::Minusify, 5).0, vec!["-5"]);
    assert_eq!(unary(OpCode::Minusify, i16::MIN).1, Outcome::Crash(Crash::Overflow));
    assert_eq!(unary(OpCode::IsOdd, 3).0, vec!["1"]);
    assert_eq!(unary(OpCode::IsOdd, 4).0, vec!["0"]);
    assert_eq!(unary(OpCode::IsOdd, -3).0, vec!["1"]);
    assert_eq!(unary(OpCode::IsOdd, -4).0, vec!["0"]);
    assert_eq!(unary(OpCode::IsOdd, i16::MIN).0, vec!["0"]);
}

#[test]
fn output_on_an_empty_stack_stops() {
    let body = vec![op(OpCode::OutputValue)];
    let vm = vm_of(1, &procedure(0, 0, &body), &[]);
    let (_, end, _) = run(&vm, &[]);
    assert_eq!(end, Outcome::Stop(VmError::InvalidStackRead));
}

#[test]
fn pop_on_an_empty_stack_depends_on_debug() {
    let body = vec![op(OpCode::Pop), op(OpCode::EndOfCode)];
    let bytes = program(1, 2, &procedure(0, 0, &body), &[]);
    let quiet = PL0VM::from_bytes(false, bytes.clone());
    assert_eq!(run(&quiet, &[]).1, Outcome::End);
    let loud = PL0VM::from_bytes(true, bytes);
    assert_eq!(run(&loud, &[]).1, Outcome::Stop(VmError::InvalidStackRead));
}

#[test]
fn call_and_return_resume_the_caller() {
    // procedure 1 prints 7 and returns; main calls it, then prints 8
    let mut p1 = with_arg(OpCode::PushConstant, 0);
    p1.push(op(OpCode::OutputValue));
    p1.push(op(OpCode::ReturnProc));
    let mut main = with_arg(OpCode::CallProc, 1);
    main.extend(with_arg(OpCode::PushConstant, 1));
    main.push(op(OpCode::OutputValue));
    main.push(op(OpCode::ReturnProc));
    let mut code = procedure(1, 0, &p1);
    code.extend(procedure(0, 2, &main));
    let vm = vm_of(2, &code, &consts16(&[7, 8]));
    let (out, end, st) = run(&vm, &[]);
    assert_eq!(out, vec!["7", "8"]);
    assert_eq!(end, Outcome::Exit);
    assert_eq!(st.cur_proc, 0);
    assert_eq!(st.fp, 0);
    assert_eq!(st.stack.len(), 2);
}

#[test]
fn call_of_a_negative_procedure_stops() {
    let main = with_arg(OpCode::CallProc, -1);
    let vm = vm_of(1, &procedure(0, 0, &main), &[]);
    assert_eq!(run(&vm, &[]).1, Outcome::Stop(VmError::CallInvalidProc(-1)));
}

#[test]
fn call_of_a_missing_procedure_aborts() {
    let main = with_arg(OpCode::CallProc, 5);
    let vm = vm_of(1, &procedure(0, 0, &main), &[]);
    assert_eq!(run(&vm, &[]).1, Outcome::Crash(Crash::IndexOutOfRange));
}

#[test]
fn input_is_stored_in_a_local_variable() {
    let mut body = with_arg(OpCode::PushAddressLocalVar, 2);
    body.push(op(OpCode::InputToAddr));
    body.extend(with_arg(OpCode::PushValueLocalVar, 2));
    body.push(op(OpCode::OutputValue));
    body.push(op(OpCode::EndOfCode));
    let vm = vm_of(1, &main_proc(&body), &[]);
    let (out, end, _) = run(&vm, &["abc", "1 2", " -12 \n"]);
    assert_eq!(out, vec!["invalid input", "invalid input", "-12"]);
    assert_eq!(end, Outcome::End);
}

#[test]
fn input_is_cut_to_the_word_size() {
    let mut body = with_arg(OpCode::PushAddressLocalVar, 0);
    body.push(op(OpCode::InputToAddr));
    body.extend(with_arg(OpCode::PushValueLocalVar, 0));
    body.push(op(OpCode::OutputValue));
    body.push(op(OpCode::EndOfCode));
    let vm = vm_of(1, &main_proc(&body), &[]);
    assert_eq!(run(&vm, &["65537"]).0, vec!["1"]);
}

#[test]
fn store_then_push_value() {
    // x := 9 through StoreValue at the absolute address of local 0, then print x
    let mut body = with_arg(OpCode::PushAddressLocalVar, 0);
    body.extend(with_arg(OpCode::PushConstant, 0));
    body.push(op(OpCode::StoreValue));
    body.extend(with_arg(OpCode::PushValueLocalVar, 0));
    body.push(op(OpCode::OutputValue));
    body.push(op(OpCode::EndOfCode));
    let vm = vm_of(1, &main_proc(&body), &consts16(&[9]));
    assert_eq!(run(&vm, &[]).0, vec!["9"]);
}

#[test]
fn put_then_get_reads_back_the_value() {
    // Put stores relative to the frame pointer (0 in main); Get reads the absolute address
    let mut body = with_arg(OpCode::PushConstant, 0); // address 2
    body.extend(with_arg(OpCode::PushConstant, 1)); // value 77
    body.push(op(OpCode::Put));
    body.extend(with_arg(OpCode::PushConstant, 0));
    body.push(op(OpCode::Get));
    body.push(op(OpCode::OutputValue));
    body.push(op(OpCode::EndOfCode));
    let vm = vm_of(1, &main_proc(&body), &consts16(&[2, 77]));
    assert_eq!(run(&vm, &[]).0, vec!["77"]);
}

#[test]
fn swap_replaces_an_address_by_its_value() {
    let mut body = with_arg(OpCode::PushConstant, 1); // the word 5 at stack position 4
    body.extend(with_arg(OpCode::PushConstant, 0)); // address 4
    body.push(op(OpCode::Swap));
    body.push(op(OpCode::OutputValue));
    body.push(op(OpCode::EndOfCode));
    let vm = vm_of(1, &main_proc(&body), &consts16(&[4, 5]));
    assert_eq!(run(&vm, &[]).0, vec!["5"]);
}

#[test]
fn reading_beyond_the_stack_stops_and_short_reads_abort() {
    let mut body = with_arg(OpCode::PushConstant, 0);
    body.push(op(OpCode::Get));
    let vm = vm_of(1, &main_proc(&body), &consts16(&[100]));
    assert_eq!(run(&vm, &[]).1, Outcome::Stop(VmError::InvalidStackRead));
    let vm = vm_of(1, &main_proc(&body), &consts16(&[3]));
    assert_eq!(run(&vm, &[]).1, Outcome::Crash(Crash::ShortRead));
}

#[test]
fn jumps_skip_code() {
    // jump over an output of 1, then output 2
    let mut body = with_arg(OpCode::Jump, 4);
    body.extend(with_arg(OpCode::PushConstant, 0));
    body.push(op(OpCode::OutputValue));
    body.extend(with_arg(OpCode::PushConstant, 1));
    body.push(op(OpCode::OutputValue));
    body.push(op(OpCode::EndOfCode));
    let vm = vm_of(1, &main_proc(&body), &consts16(&[1, 2]));
    assert_eq!(run(&vm, &[]).0, vec!["2"]);
}

#[test]
fn jump_if_false_jumps_on_zero_only() {
    let make = |cond: i16| {
        let mut body = with_arg(OpCode::PushConstant, 0);
        body.extend(with_arg(OpCode::JumpIfFalse, 4));
        body.extend(with_arg(OpCode::PushConstant, 1));
        body.push(op(OpCode::OutputValue));
        body.extend(with_arg(OpCode::PushConstant, 2));
        body.push(op(OpCode::OutputValue));
        body.push(op(OpCode::EndOfCode));
        vm_of(1, &main_proc(&body), &consts16(&[cond, 1, 2]))
    };
    assert_eq!(run(&make(0), &[]).0, vec!["2"]);
    assert_eq!(run(&make(3), &[]).0, vec!["1", "2"]);
}

#[test]
fn jump_before_the_start_aborts() {
    let body = with_arg(OpCode::Jump, -100);
    let vm = vm_of(1, &procedure(0, 0, &body), &[]);
    assert_eq!(run(&vm, &[]).1, Outcome::Crash(Crash::Overflow));
}

#[test]
fn texts_are_printed() {
    let mut body = vec![op(OpCode::PutString)];
    body.extend_from_slice(b"hello\0");
    body.push(op(OpCode::EndOfCode));
    let vm = vm_of(1, &procedure(0, 0, &body), &[]);
    assert_eq!(run(&vm, &[]).0, vec!["hello"]);
}

#[test]
fn invalid_utf8_text_stops() {
    let mut body = vec![op(OpCode::PutString)];
    body.extend_from_slice(&[0xFF, 0xFE, 0]);
    body.push(op(OpCode::EndOfCode));
    let vm = vm_of(1, &procedure(0, 0, &body), &[]);
    let (_, end, _) = run(&vm, &[]);
    assert_eq!(end, Outcome::Stop(VmError::InvalidString { start: 12, len: 2 }));
}

#[test]
fn unknown_opcode_stops() {
    let body = vec![0xEE];
    let vm = vm_of(1, &procedure(0, 0, &body), &[]);
    assert_eq!(run(&vm, &[]).1, Outcome::Stop(VmError::UnknownOpcode(0xEE)));
}

#[test]
fn undefined_instructions_abort() {
    let body = vec![op(OpCode::OpAddAddr)];
    let vm = vm_of(1, &procedure(0, 0, &body), &[]);
    assert_eq!(run(&vm, &[]).1, Outcome::Crash(Crash::NotImplemented));
}

#[test]
fn running_off_the_program_aborts() {
    let body = vec![op(OpCode::Pop)];
    let vm = vm_of(1, &procedure(0, 0, &body), &[]);
    assert_eq!(run(&vm, &[]).1, Outcome::Crash(Crash::IndexOutOfRange));
}

#[test]
fn entry_reserves_variable_space() {
    let body = vec![op(OpCode::EndOfCode)];
    let vm = vm_of(1, &procedure(0, 6, &body), &[]);
    let mut st = vm.start().unwrap();
    assert_eq!(vm.try_step(&mut st), Ok(Event::Next(Note::Reserved(6))));
    assert_eq!(st.stack, vec![0u8; 6]);
    assert_eq!(st.pc, 11);
}

#[test]
fn thirty_two_bit_words() {
    let mut body = with_arg(OpCode::PushConstant, 0);
    body.extend(with_arg(OpCode::PushConstant, 1));
    body.push(op(OpCode::OpMultiply));
    body.push(op(OpCode::OutputValue));
    body.push(op(OpCode::EndOfCode));
    let constants: Vec<u8> = [100_000i32, 3].iter().flat_map(|v| v.to_le_bytes()).collect();
    let vm = PL0VM::from_bytes(false, program(1, 4, &procedure(0, 0, &body), &constants));
    assert_eq!(vm.bits(), Data::B32(0));
    assert_eq!(run(&vm, &[]).0, vec!["300000"]);
}

#[test]
fn sixty_four_bit_overflow_aborts() {
    let mut body = with_arg(OpCode::PushConstant, 0);
    body.extend(with_arg(OpCode::PushConstant, 0));
    body.push(op(OpCode::OpAdd));
    let constants = i64::MAX.to_le_bytes().to_vec();
    let vm = PL0VM::from_bytes(false, program(1, 8, &procedure(0, 0, &body), &constants));
    assert_eq!(run(&vm, &[]).1, Outcome::Crash(Crash::Overflow));
}

#[test]
fn start_refuses_bad_headers() {
    let vm = PL0VM::from_bytes(false, vec![1, 0, 2, 0]);
    assert_eq!(vm.start().err(), Some(Failure::Error(VmError::InvalidFile)));
    let vm = PL0VM::from_bytes(false, vec![1, 0, 2, 1, 0x1E]);
    assert_eq!(vm.start().err(), Some(Failure::Error(VmError::InvalidFile)));
    let vm = PL0VM::from_bytes(false, program(1, 3, &procedure(0, 0, &[0x1E]), &[]));
    assert_eq!(vm.start().err(), Some(Failure::Error(VmError::InvalidArch(3))));
}

#[test]
fn preload_errors() {
    // procedure id outside the table
    let vm = vm_of(1, &procedure(3, 0, &[0x1E]), &[]);
    assert_eq!(vm.start().err(), Some(Failure::Error(VmError::InvalidPreloadProcedure)));
    // a negative procedure count cannot be allocated
    let vm = vm_of(-1, &procedure(0, 0, &[0x1E]), &[]);
    assert_eq!(vm.start().err(), Some(Failure::Crash(Crash::CapacityOverflow)));
    // two entries with the same id leave a slot empty
    let mut code = procedure(0, 0, &[0x1E]);
    code.extend(procedure(0, 0, &[0x1E]));
    let vm = vm_of(2, &code, &[]);
    assert_eq!(vm.start().err(), Some(Failure::Crash(Crash::MissingProcedure)));
    // the code runs out before every procedure was found
    let vm = vm_of(2, &procedure(0, 0, &[0x1E]), &[]);
    assert_eq!(vm.start().err(), Some(Failure::Error(VmError::Preload)));
    // no procedures at all: the main procedure is missing
    let vm = vm_of(0, &[0x1E], &[]);
    assert_eq!(vm.start().err(), Some(Failure::Crash(Crash::IndexOutOfRange)));
}

#[test]
fn load_data_finds_procedures_and_constants() {
    let mut code = procedure(1, 0, &[op(OpCode::ReturnProc)]);
    code.extend(procedure(0, 0, &[op(OpCode::EndOfCode)]));
    let vm = vm_of(2, &code, &consts16(&[-1, 300]));
    let (procs, consts) = vm.load_data().unwrap();
    assert_eq!(procs.len(), 2);
    assert_eq!(procs[1].start_pos, 4);
    assert_eq!(procs[0].start_pos, 12);
    for p in &procs {
        assert_eq!(vm.program()[p.start_pos], 0x1A);
        assert_eq!(p.frame_ptr, 0);
    }
    assert_eq!(consts, vec![Data::B16(-1), Data::B16(300)]);
}

#[test]
fn step_executes_one_instruction() {
    let mut body = with_arg(OpCode::PushConstant, 0);
    body.push(op(OpCode::EndOfCode));
    let vm = vm_of(1, &main_proc(&body), &consts16(&[-3]));
    let mut st = vm.start().unwrap();
    let constants = st.constants.clone();
    let procedures = st.procedures.clone();
    assert_eq!(vm.step(&mut st), Event::Next(Note::Reserved(4)));
    assert_eq!(vm.step(&mut st), Event::Next(Note::PushedConstant { index: 0, value: -3 }));
    assert_eq!(st.stack, vec![0, 0, 0, 0, 0xFD, 0xFF]);
    assert_eq!(vm.step(&mut st), Event::End);
    // the tables stay as they were
    assert_eq!(st.constants, constants);
    assert_eq!(st.procedures, procedures);
}

#[test]
fn words_read_back_from_their_bytes() {
    for d in [Data::B16(-12345), Data::B32(i32::MIN), Data::B64(0x0123_4567_89AB_CDEF)] {
        let vm = PL0VM::from_bytes(
            false,
            program(1, (d.to_bytes().len()) as i16, &[0x1E], &[]),
        );
        let bytes = d.to_bytes();
        assert_eq!(vm.bytes_to_data(&Some(&bytes[..])), Some(d));
    }
}

#[test]
fn input_is_stored_at_the_address_in_a_called_procedure() {
    // main calls procedure 1, which reads a number into its local variable and prints it
    let bytes = vec![
        2, 0, 2, 0, 0x1A, 0x0B, 0, 0, 0, 0, 0, 0x16, 1, 0, 0x17, 0x1A, 0x10, 0, 1, 0, 2, 0, 0x03,
        0, 0, 0x09, 0x00, 0, 0, 0x08, 0x17,
    ];
    let vm = PL0VM::from_bytes(false, bytes);
    let (out, end, _) = run(&vm, &["7"]);
    assert_eq!(out, vec!["7"]);
    assert_eq!(end, Outcome::Exit);
}
