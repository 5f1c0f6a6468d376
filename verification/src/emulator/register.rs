use crate::EmulatorErr;
use vstd::prelude::*;
use vstd::string::*;

verus! {

/// Selects one of the two general registers.
#[derive(Debug, Clone, Copy, PartialEq, Eq, Structural)]
pub enum RegisterOp {
    A,
    B,
}

impl RegisterOp {
    /// The register that a word of program text names, if it names one.
    pub open spec fn named_by(word: Seq<char>) -> Option<RegisterOp> {
        if word == seq!['A'] {
            Some(RegisterOp::A)
        } else if word == seq!['B'] {
            Some(RegisterOp::B)
        } else {
            None
        }
    }

    /// Reads a register name: `"A"` or `"B"`, anything else is rejected.
    pub fn from(a: String) -> (res: Result<RegisterOp, EmulatorErr>)
        ensures
            res == match Self::named_by(a@) {
                Some(r) => Ok::<RegisterOp, EmulatorErr>(r),
                None => Err(EmulatorErr::InvalidRegister),
            },
    {
        let word = a.as_str();
        if word.unicode_len() != 1 {
            return Err(EmulatorErr::InvalidRegister);
        }
        let c = word.get_char(0);
        if c == 'A' {
            assert(a@ =~= seq!['A']);
            Ok(RegisterOp::A)
        } else if c == 'B' {
            assert(a@ =~= seq!['B']);
            Ok(RegisterOp::B)
        } else {
            Err(EmulatorErr::InvalidRegister)
        }
    }
}

/// What a register file holds, as numbers.
pub struct RegisterState {
    /// Register A.
    pub a: nat,
    /// Register B.
    pub b: nat,
    /// The carry flag.
    pub carry: nat,
    /// The program counter.
    pub pc: nat,
}

impl RegisterState {
    /// Every field is in its architectural range: four bits for the
    /// registers and the program counter, one bit for the carry flag.
    pub open spec fn wf(self) -> bool {
        &&& self.a <= 15
        &&& self.b <= 15
        &&& self.carry <= 1
        &&& self.pc <= 15
    }

    /// The state of a machine that has just been switched on.
    pub open spec fn zero() -> RegisterState {
        RegisterState { a: 0, b: 0, carry: 0, pc: 0 }
    }
}

/// The register file: two general registers, the carry flag and the program
/// counter. It stores what it is given; keeping the values in range is up to
/// whoever sets them.
#[derive(Clone, Copy)]
pub struct Register {
    register_a: u8,
    register_b: u8,
    carry_flag: u8,
    pc: u8,
}

impl View for Register {
    type V = RegisterState;

    closed spec fn view(&self) -> RegisterState {
        RegisterState {
            a: self.register_a as nat,
            b: self.register_b as nat,
            carry: self.carry_flag as nat,
            pc: self.pc as nat,
        }
    }
}

impl Default for Register {
    fn default() -> (register: Self)
        ensures
            register@ == RegisterState::zero(),
    {
        Register { register_a: 0, register_b: 0, carry_flag: 0, pc: 0 }
    }
}

impl Register {
    /// A register file with every field zero.
    pub fn new() -> (register: Self)
        ensures
            register@ == RegisterState::zero(),
    {
        Register { register_a: 0, register_b: 0, carry_flag: 0, pc: 0 }
    }

    pub fn set_pc(&mut self, value: u8)
        ensures
            final(self)@ == (RegisterState { pc: value as nat, ..old(self)@ }),
    {
        self.pc = value
    }

    pub fn pc(&self) -> (value: u8)
        ensures
            value == self@.pc,
    {
        self.pc
    }

    /// Moves the program counter on by one. It does not wrap: a counter at
    /// the top of its eight-bit cell cannot be moved on.
    pub fn inc_pc(&mut self)
        requires
            old(self)@.pc < u8::MAX,
        ensures
            final(self)@ == (RegisterState { pc: old(self)@.pc + 1, ..old(self)@ }),
    {
        self.pc += 1
    }

    pub fn set_carry_flag(&mut self, value: u8)
        ensures
            final(self)@ == (RegisterState { carry: value as nat, ..old(self)@ }),
    {
        self.carry_flag = value
    }

    pub fn carry_flag(&self) -> (value: u8)
        ensures
            value == self@.carry,
    {
        self.carry_flag
    }

    pub fn set_register_a(&mut self, value: u8)
        ensures
            final(self)@ == (RegisterState { a: value as nat, ..old(self)@ }),
    {
        self.register_a = value
    }

    pub fn register_a(&self) -> (value: u8)
        ensures
            value == self@.a,
    {
        self.register_a
    }

    pub fn set_register_b(&mut self, value: u8)
        ensures
            final(self)@ == (RegisterState { b: value as nat, ..old(self)@ }),
    {
        self.register_b = value
    }

    pub fn register_b(&self) -> (value: u8)
        ensures
            value == self@.b,
    {
        self.register_b
    }
}

} // verus!
