use vstd::prelude::*;
use vstd::string::*;

pub mod emulator;

verus! {

/// Everything that can stop a program on its way from text to a finished run.
#[derive(Debug, Clone, Copy, PartialEq, Eq, Structural)]
pub enum EmulatorErr {
    /// A fetched byte whose high nibble selects no instruction; carries that nibble.
    UnknownOpcode(u8),
    /// A program image of more than sixteen bytes.
    MemoryOverflow,
    /// An instruction list with nothing in it.
    EmptyProgram,
    /// A word that is no mnemonic where a mnemonic is due.
    InvalidInstruction,
    /// The text ends before an instruction has all its operands.
    MissingOperand,
    /// A register operand other than `A` or `B`.
    InvalidRegister,
    /// An immediate that is no binary literal fitting eight bits.
    InvalidImmediate,
}

impl EmulatorErr {
    /// The wording of `message`.
    pub open spec fn wording(self) -> Seq<char> {
        match self {
            EmulatorErr::UnknownOpcode(_) => "No match opcode"@,
            EmulatorErr::MemoryOverflow => "Overflow rom size: maximum is 16 bytes"@,
            EmulatorErr::EmptyProgram => "instruction is empty"@,
            EmulatorErr::InvalidInstruction => "invalid instruction"@,
            EmulatorErr::MissingOperand => "instruction operand is missing"@,
            EmulatorErr::InvalidRegister => "Invalid RegisterOp error"@,
            EmulatorErr::InvalidImmediate => "From binary to decimal failed"@,
        }
    }

    /// A short description of the error, for people.
    pub fn message(&self) -> (text: String)
        ensures
            text@ == self.wording(),
    {
        match self {
            EmulatorErr::UnknownOpcode(_) => String::from_str("No match opcode"),
            EmulatorErr::MemoryOverflow => String::from_str(
                "Overflow rom size: maximum is 16 bytes",
            ),
            EmulatorErr::EmptyProgram => String::from_str("instruction is empty"),
            EmulatorErr::InvalidInstruction => String::from_str("invalid instruction"),
            EmulatorErr::MissingOperand => String::from_str("instruction operand is missing"),
            EmulatorErr::InvalidRegister => String::from_str("Invalid RegisterOp error"),
            EmulatorErr::InvalidImmediate => String::from_str("From binary to decimal failed"),
        }
    }
}

} // verus!
