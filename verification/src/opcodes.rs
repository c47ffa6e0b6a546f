use vstd::prelude::*;

verus! {

/// The instructions of the bytecode. The byte of each instruction is its position
/// in this list, counted from 0 (see `OpCode::spec_byte`).
#[derive(Clone, Copy, Debug, PartialEq, Eq, Structural)]
pub enum OpCode {
    /// Argument: address. Pushes the value of a local variable.
    PushValueLocalVar,
    /// Argument: address. Pushes the value of a variable of the main procedure.
    PushValueMainVar,
    /// Arguments: address, procedure id. Pushes the value of a variable of another procedure.
    PushValueGlobalVar,
    /// Argument: address. Pushes the stack address of a local variable.
    PushAddressLocalVar,
    /// Argument: address. Pushes the stack address of a variable of the main procedure.
    PushAddressMainVar,
    /// Arguments: address, procedure id. Pushes the stack address of a variable of another procedure.
    PushAddressGlobalVar,
    /// Argument: constant index. Pushes a constant of the constant table.
    PushConstant,
    /// Stack: value on top, target address below. Stores the value.
    StoreValue,
    /// Stack: value on top. Prints the value.
    OutputValue,
    /// Stack: target address on top. Reads a number into the address.
    InputToAddr,
    /// Stack: value on top. Replaces it by its negation.
    Minusify,
    /// Stack: value on top. Replaces it by 1 if it is odd, else 0.
    IsOdd,
    /// Stack: right operand on top, left below. Pushes left + right.
    OpAdd,
    /// Stack: right operand on top, left below. Pushes left - right.
    OpSubtract,
    /// Stack: right operand on top, left below. Pushes left * right.
    OpMultiply,
    /// Stack: right operand on top, left below. Pushes left / right.
    OpDivide,
    /// Pushes 1 if left == right, else 0.
    CompareEq,
    /// Pushes 1 if left != right, else 0.
    CompareNotEq,
    /// Pushes 1 if left < right, else 0.
    CompareLT,
    /// Pushes 1 if left > right, else 0.
    CompareGT,
    /// Pushes 1 if left <= right, else 0.
    CompareLTEq,
    /// Pushes 1 if left >= right, else 0.
    CompareGTEq,
    /// Argument: procedure id. Calls a procedure.
    CallProc,
    /// No arguments. Returns from the current procedure.
    ReturnProc,
    /// Argument: jump offset (may be negative).
    Jump,
    /// Argument: jump offset. Jumps when the value on top of the stack is 0.
    JumpIfFalse,
    /// Arguments: procedure length in bytes, procedure id, bytes of variables.
    EntryProc,
    /// Argument: a zero-terminated string.
    PutString,
    /// Stack: any value on top, which is dropped.
    Pop,
    /// Stack: an address on top, replaced by the value stored there.
    Swap,
    /// Marks the end of the code.
    EndOfCode,
    /// Stores a value at an address relative to the frame pointer.
    Put,
    /// Reads the value at an absolute stack address.
    Get,
    /// Reserved; its behaviour is not defined.
    OpAddAddr,
    /// Extended procedure entry with a parameter count as fourth argument.
    EntryProcEx,
}

/// The instruction that a byte encodes, if any.
pub open spec fn op_of_byte(b: u8) -> Option<OpCode> {
    if b == 0 {
        Some(OpCode::PushValueLocalVar)
    } else if b == 1 {
        Some(OpCode::PushValueMainVar)
    } else if b == 2 {
        Some(OpCode::PushValueGlobalVar)
    } else if b == 3 {
        Some(OpCode::PushAddressLocalVar)
    } else if b == 4 {
        Some(OpCode::PushAddressMainVar)
    } else if b == 5 {
        Some(OpCode::PushAddressGlobalVar)
    } else if b == 6 {
        Some(OpCode::PushConstant)
    } else if b == 7 {
        Some(OpCode::StoreValue)
    } else if b == 8 {
        Some(OpCode::OutputValue)
    } else if b == 9 {
        Some(OpCode::InputToAddr)
    } else if b == 10 {
        Some(OpCode::Minusify)
    } else if b == 11 {
        Some(OpCode::IsOdd)
    } else if b == 12 {
        Some(OpCode::OpAdd)
    } else if b == 13 {
        Some(OpCode::OpSubtract)
    } else if b == 14 {
        Some(OpCode::OpMultiply)
    } else if b == 15 {
        Some(OpCode::OpDivide)
    } else if b == 16 {
        Some(OpCode::CompareEq)
    } else if b == 17 {
        Some(OpCode::CompareNotEq)
    } else if b == 18 {
        Some(OpCode::CompareLT)
    } else if b == 19 {
        Some(OpCode::CompareGT)
    } else if b == 20 {
        Some(OpCode::CompareLTEq)
    } else if b == 21 {
        Some(OpCode::CompareGTEq)
    } else if b == 22 {
        Some(OpCode::CallProc)
    } else if b == 23 {
        Some(OpCode::ReturnProc)
    } else if b == 24 {
        Some(OpCode::Jump)
    } else if b == 25 {
        Some(OpCode::JumpIfFalse)
    } else if b == 26 {
        Some(OpCode::EntryProc)
    } else if b == 27 {
        Some(OpCode::PutString)
    } else if b == 28 {
        Some(OpCode::Pop)
    } else if b == 29 {
        Some(OpCode::Swap)
    } else if b == 30 {
        Some(OpCode::EndOfCode)
    } else if b == 31 {
        Some(OpCode::Put)
    } else if b == 32 {
        Some(OpCode::Get)
    } else if b == 33 {
        Some(OpCode::OpAddAddr)
    } else if b == 34 {
        Some(OpCode::EntryProcEx)
    } else {
        None
    }
}

impl OpCode {
    /// The byte that encodes this instruction.
    pub open spec fn spec_byte(self) -> u8 {
        match self {
            OpCode::PushValueLocalVar => 0u8,
            OpCode::PushValueMainVar => 1u8,
            OpCode::PushValueGlobalVar => 2u8,
            OpCode::PushAddressLocalVar => 3u8,
            OpCode::PushAddressMainVar => 4u8,
            OpCode::PushAddressGlobalVar => 5u8,
            OpCode::PushConstant => 6u8,
            OpCode::StoreValue => 7u8,
            OpCode::OutputValue => 8u8,
            OpCode::InputToAddr => 9u8,
            OpCode::Minusify => 10u8,
            OpCode::IsOdd => 11u8,
            OpCode::OpAdd => 12u8,
            OpCode::OpSubtract => 13u8,
            OpCode::OpMultiply => 14u8,
            OpCode::OpDivide => 15u8,
            OpCode::CompareEq => 16u8,
            OpCode::CompareNotEq => 17u8,
            OpCode::CompareLT => 18u8,
            OpCode::CompareGT => 19u8,
            OpCode::CompareLTEq => 20u8,
            OpCode::CompareGTEq => 21u8,
            OpCode::CallProc => 22u8,
            OpCode::ReturnProc => 23u8,
            OpCode::Jump => 24u8,
            OpCode::JumpIfFalse => 25u8,
            OpCode::EntryProc => 26u8,
            OpCode::PutString => 27u8,
            OpCode::Pop => 28u8,
            OpCode::Swap => 29u8,
            OpCode::EndOfCode => 30u8,
            OpCode::Put => 31u8,
            OpCode::Get => 32u8,
            OpCode::OpAddAddr => 33u8,
            OpCode::EntryProcEx => 34u8,
        }
    }

    /// The name of the instruction, as it is shown in listings and traces.
    pub open spec fn spec_name(self) -> Seq<char> {
        match self {
            OpCode::PushValueLocalVar => "PushValueLocalVar"@,
            OpCode::PushValueMainVar => "PushValueMainVar"@,
            OpCode::PushValueGlobalVar => "PushValueGlobalVar"@,
            OpCode::PushAddressLocalVar => "PushAddressLocalVar"@,
            OpCode::PushAddressMainVar => "PushAddressMainVar"@,
            OpCode::PushAddressGlobalVar => "PushAddressGlobalVar"@,
            OpCode::PushConstant => "PushConstant"@,
            OpCode::StoreValue => "StoreValue"@,
            OpCode::OutputValue => "OutputValue"@,
            OpCode::InputToAddr => "InputToAddr"@,
            OpCode::Minusify => "Minusify"@,
            OpCode::IsOdd => "IsOdd"@,
            OpCode::OpAdd => "OpAdd"@,
            OpCode::OpSubtract => "OpSubtract"@,
            OpCode::OpMultiply => "OpMultiply"@,
            OpCode::OpDivide => "OpDivide"@,
            OpCode::CompareEq => "CompareEq"@,
            OpCode::CompareNotEq => "CompareNotEq"@,
            OpCode::CompareLT => "CompareLT"@,
            OpCode::CompareGT => "CompareGT"@,
            OpCode::CompareLTEq => "CompareLTEq"@,
            OpCode::CompareGTEq => "CompareGTEq"@,
            OpCode::CallProc => "CallProc"@,
            OpCode::ReturnProc => "ReturnProc"@,
            OpCode::Jump => "Jump"@,
            OpCode::JumpIfFalse => "JumpIfFalse"@,
            OpCode::EntryProc => "EntryProc"@,
            OpCode::PutString => "PutString"@,
            OpCode::Pop => "Pop"@,
            OpCode::Swap => "Swap"@,
            OpCode::EndOfCode => "EndOfCode"@,
            OpCode::Put => "Put"@,
            OpCode::Get => "Get"@,
            OpCode::OpAddAddr => "OpAddAddr"@,
            OpCode::EntryProcEx => "EntryProcEx"@,
        }
    }

    /// The byte that encodes this instruction.
    pub fn to_byte(self) -> (b: u8)
        ensures
            b == self.spec_byte(),
    {
        match self {
            OpCode::PushValueLocalVar => 0,
            OpCode::PushValueMainVar => 1,
            OpCode::PushValueGlobalVar => 2,
            OpCode::PushAddressLocalVar => 3,
            OpCode::PushAddressMainVar => 4,
            OpCode::PushAddressGlobalVar => 5,
            OpCode::PushConstant => 6,
            OpCode::StoreValue => 7,
            OpCode::OutputValue => 8,
            OpCode::InputToAddr => 9,
            OpCode::Minusify => 10,
            OpCode::IsOdd => 11,
            OpCode::OpAdd => 12,
            OpCode::OpSubtract => 13,
            OpCode::OpMultiply => 14,
            OpCode::OpDivide => 15,
            OpCode::CompareEq => 16,
            OpCode::CompareNotEq => 17,
            OpCode::CompareLT => 18,
            OpCode::CompareGT => 19,
            OpCode::CompareLTEq => 20,
            OpCode::CompareGTEq => 21,
            OpCode::CallProc => 22,
            OpCode::ReturnProc => 23,
            OpCode::Jump => 24,
            OpCode::JumpIfFalse => 25,
            OpCode::EntryProc => 26,
            OpCode::PutString => 27,
            OpCode::Pop => 28,
            OpCode::Swap => 29,
            OpCode::EndOfCode => 30,
            OpCode::Put => 31,
            OpCode::Get => 32,
            OpCode::OpAddAddr => 33,
            OpCode::EntryProcEx => 34,
        }
    }

    /// The instruction that a byte encodes, or `None` for a byte that encodes none.
    pub fn from_byte(b: u8) -> (op: Option<OpCode>)
        ensures
            op == op_of_byte(b),
            op is Some <==> b <= 0x22,
            op matches Some(o) ==> o.spec_byte() == b,
    {
        match b {
            0 => Some(OpCode::PushValueLocalVar),
            1 => Some(OpCode::PushValueMainVar),
            2 => Some(OpCode::PushValueGlobalVar),
            3 => Some(OpCode::PushAddressLocalVar),
            4 => Some(OpCode::PushAddressMainVar),
            5 => Some(OpCode::PushAddressGlobalVar),
            6 => Some(OpCode::PushConstant),
            7 => Some(OpCode::StoreValue),
            8 => Some(OpCode::OutputValue),
            9 => Some(OpCode::InputToAddr),
            10 => Some(OpCode::Minusify),
            11 => Some(OpCode::IsOdd),
            12 => Some(OpCode::OpAdd),
            13 => Some(OpCode::OpSubtract),
            14 => Some(OpCode::OpMultiply),
            15 => Some(OpCode::OpDivide),
            16 => Some(OpCode::CompareEq),
            17 => Some(OpCode::CompareNotEq),
            18 => Some(OpCode::CompareLT),
            19 => Some(OpCode::CompareGT),
            20 => Some(OpCode::CompareLTEq),
            21 => Some(OpCode::CompareGTEq),
            22 => Some(OpCode::CallProc),
            23 => Some(OpCode::ReturnProc),
            24 => Some(OpCode::Jump),
            25 => Some(OpCode::JumpIfFalse),
            26 => Some(OpCode::EntryProc),
            27 => Some(OpCode::PutString),
            28 => Some(OpCode::Pop),
            29 => Some(OpCode::Swap),
            30 => Some(OpCode::EndOfCode),
            31 => Some(OpCode::Put),
            32 => Some(OpCode::Get),
            33 => Some(OpCode::OpAddAddr),
            34 => Some(OpCode::EntryProcEx),
            _ => None,
        }
    }

    /// The name of the instruction.
    pub fn name(&self) -> (s: &'static str)
        ensures
            s@ == self.spec_name(),
    {
        match self {
            OpCode::PushValueLocalVar => "PushValueLocalVar",
            OpCode::PushValueMainVar => "PushValueMainVar",
            OpCode::PushValueGlobalVar => "PushValueGlobalVar",
            OpCode::PushAddressLocalVar => "PushAddressLocalVar",
            OpCode::PushAddressMainVar => "PushAddressMainVar",
            OpCode::PushAddressGlobalVar => "PushAddressGlobalVar",
            OpCode::PushConstant => "PushConstant",
            OpCode::StoreValue => "StoreValue",
            OpCode::OutputValue => "OutputValue",
            OpCode::InputToAddr => "InputToAddr",
            OpCode::Minusify => "Minusify",
            OpCode::IsOdd => "IsOdd",
            OpCode::OpAdd => "OpAdd",
            OpCode::OpSubtract => "OpSubtract",
            OpCode::OpMultiply => "OpMultiply",
            OpCode::OpDivide => "OpDivide",
            OpCode::CompareEq => "CompareEq",
            OpCode::CompareNotEq => "CompareNotEq",
            OpCode::CompareLT => "CompareLT",
            OpCode::CompareGT => "CompareGT",
            OpCode::CompareLTEq => "CompareLTEq",
            OpCode::CompareGTEq => "CompareGTEq",
            OpCode::CallProc => "CallProc",
            OpCode::ReturnProc => "ReturnProc",
            OpCode::Jump => "Jump",
            OpCode::JumpIfFalse => "JumpIfFalse",
            OpCode::EntryProc => "EntryProc",
            OpCode::PutString => "PutString",
            OpCode::Pop => "Pop",
            OpCode::Swap => "Swap",
            OpCode::EndOfCode => "EndOfCode",
            OpCode::Put => "Put",
            OpCode::Get => "Get",
            OpCode::OpAddAddr => "OpAddAddr",
            OpCode::EntryProcEx => "EntryProcEx",
        }
    }
}

/// Decoding the byte of an instruction gives back that instruction.
pub proof fn lemma_byte_roundtrip(op: OpCode)
    ensures
        op.spec_byte() <= 0x22,
        forall|other: OpCode| other.spec_byte() == op.spec_byte() ==> other == op,
{
}

} // verus!
