use crate::emulator::register::RegisterOp;
use crate::EmulatorErr;
use vstd::prelude::*;

verus! {

/// The twelve instruction kinds of the machine. Each owns one value of the
/// high nibble of an instruction byte; four nibble values belong to no kind.
#[derive(Debug, Clone, Copy, PartialEq, Eq, Structural)]
pub enum Opcodes {
    /// Add the immediate to register A.
    AddA,
    /// Add the immediate to register B.
    AddB,
    /// Load the immediate into register A.
    MovA,
    /// Load the immediate into register B.
    MovB,
    /// Copy register A into register B.
    MovA2B,
    /// Copy register B into register A.
    MovB2A,
    /// Jump to the immediate.
    Jmp,
    /// Jump to the immediate unless the carry flag is set.
    Jnc,
    /// Read the input latch into register A.
    InA,
    /// Read the input latch into register B.
    InB,
    /// Write register B to the output latch.
    OutB,
    /// Write the immediate to the output latch.
    OutIm,
}

/// One instruction as the assembler sees it, before it is packed into a byte.
#[derive(Debug, Clone, Copy, PartialEq, Eq, Structural)]
pub enum Token {
    Add(RegisterOp, u8),
    Mov(RegisterOp, u8),
    /// Copy register A into register B.
    MovAB,
    /// Copy register B into register A.
    MovBA,
    Jmp(u8),
    Jnc(u8),
    In(RegisterOp),
    OutB,
    OutIm(u8),
}

impl Opcodes {
    /// The opcode table: the high nibble that selects each kind. Encoding and
    /// decoding both go by this table and by nothing else.
    pub open spec fn spec_nibble(self) -> u8 {
        match self {
            Opcodes::AddA => 0b0000,
            Opcodes::MovA2B => 0b0001,
            Opcodes::InA => 0b0010,
            Opcodes::MovA => 0b0011,
            Opcodes::MovB2A => 0b0100,
            Opcodes::AddB => 0b0101,
            Opcodes::InB => 0b0110,
            Opcodes::MovB => 0b0111,
            Opcodes::OutB => 0b1001,
            Opcodes::OutIm => 0b1011,
            Opcodes::Jnc => 0b1110,
            Opcodes::Jmp => 0b1111,
        }
    }

    /// The kind that a nibble selects: the one whose table entry it is.
    pub open spec fn spec_from_nibble(nibble: u8) -> Option<Opcodes> {
        if exists|kind: Opcodes| kind.spec_nibble() == nibble {
            Some(choose|kind: Opcodes| kind.spec_nibble() == nibble)
        } else {
            None
        }
    }

    /// Whether decoding reports operand zero for this kind whatever the low
    /// nibble of the byte holds.
    pub open spec fn spec_ignores_operand(self) -> bool {
        self == Opcodes::InA || self == Opcodes::InB || self == Opcodes::OutB
    }

    /// The high nibble that selects this kind.
    #[verifier::when_used_as_spec(spec_nibble)]
    pub fn nibble(self) -> (nibble: u8)
        ensures
            nibble == self.spec_nibble(),
            nibble <= 15,
    {
        match self {
            Opcodes::AddA => 0b0000,
            Opcodes::MovA2B => 0b0001,
            Opcodes::InA => 0b0010,
            Opcodes::MovA => 0b0011,
            Opcodes::MovB2A => 0b0100,
            Opcodes::AddB => 0b0101,
            Opcodes::InB => 0b0110,
            Opcodes::MovB => 0b0111,
            Opcodes::OutB => 0b1001,
            Opcodes::OutIm => 0b1011,
            Opcodes::Jnc => 0b1110,
            Opcodes::Jmp => 0b1111,
        }
    }

    /// The kind that a nibble selects, if it selects one.
    #[verifier::when_used_as_spec(spec_from_nibble)]
    pub fn from_nibble(nibble: u8) -> (kind: Option<Opcodes>)
        ensures
            kind == Self::spec_from_nibble(nibble),
            kind matches Some(k) ==> k.spec_nibble() == nibble,
            kind is None ==> forall|k: Opcodes| k.spec_nibble() != nibble,
    {
        let kind = match nibble {
            0b0000 => Some(Opcodes::AddA),
            0b0001 => Some(Opcodes::MovA2B),
            0b0010 => Some(Opcodes::InA),
            0b0011 => Some(Opcodes::MovA),
            0b0100 => Some(Opcodes::MovB2A),
            0b0101 => Some(Opcodes::AddB),
            0b0110 => Some(Opcodes::InB),
            0b0111 => Some(Opcodes::MovB),
            0b1001 => Some(Opcodes::OutB),
            0b1011 => Some(Opcodes::OutIm),
            0b1110 => Some(Opcodes::Jnc),
            0b1111 => Some(Opcodes::Jmp),
            _ => None,
        };
        proof {
            match kind {
                Some(k) => {
                    assert(k.spec_nibble() == nibble);
                    lemma_table_is_one_to_one(k, choose|c: Opcodes| c.spec_nibble() == nibble);
                },
                None => {
                    assert forall|k: Opcodes| k.spec_nibble() != nibble by {}
                },
            }
        }
        kind
    }

    /// Whether decoding reports operand zero for this kind whatever the low
    /// nibble of the byte holds.
    #[verifier::when_used_as_spec(spec_ignores_operand)]
    pub fn ignores_operand(self) -> (ignored: bool)
        ensures
            ignored == self.spec_ignores_operand(),
    {
        match self {
            Opcodes::InA | Opcodes::InB | Opcodes::OutB => true,
            _ => false,
        }
    }
}

/// No two kinds share a nibble.
pub proof fn lemma_table_is_one_to_one(first: Opcodes, second: Opcodes)
    requires
        first.spec_nibble() == second.spec_nibble(),
    ensures
        first == second,
{
}

/// Looking a kind's nibble up in the table gives the kind back, and a nibble
/// that selects a kind is that kind's nibble.
pub proof fn lemma_table_lookup(kind: Opcodes, nibble: u8)
    ensures
        Opcodes::spec_from_nibble(kind.spec_nibble()) == Some(kind),
        kind.spec_nibble() <= 15,
        Opcodes::spec_from_nibble(nibble) == Some(kind) <==> kind.spec_nibble() == nibble,
{
    lemma_table_is_one_to_one(kind, choose|c: Opcodes| c.spec_nibble() == kind.spec_nibble());
    if kind.spec_nibble() == nibble {
    } else if Opcodes::spec_from_nibble(nibble) == Some(kind) {
        assert(exists|c: Opcodes| c.spec_nibble() == nibble);
    }
}

impl Token {
    /// The kind of this instruction.
    pub open spec fn spec_opcode(self) -> Opcodes {
        match self {
            Token::Add(RegisterOp::A, _) => Opcodes::AddA,
            Token::Add(RegisterOp::B, _) => Opcodes::AddB,
            Token::Mov(RegisterOp::A, _) => Opcodes::MovA,
            Token::Mov(RegisterOp::B, _) => Opcodes::MovB,
            Token::MovAB => Opcodes::MovA2B,
            Token::MovBA => Opcodes::MovB2A,
            Token::Jmp(_) => Opcodes::Jmp,
            Token::Jnc(_) => Opcodes::Jnc,
            Token::In(RegisterOp::A) => Opcodes::InA,
            Token::In(RegisterOp::B) => Opcodes::InB,
            Token::OutB => Opcodes::OutB,
            Token::OutIm(_) => Opcodes::OutIm,
        }
    }

    /// The operand of this instruction: its immediate, or zero if it has
    /// none.
    pub open spec fn spec_operand(self) -> u8 {
        match self {
            Token::Add(_, im) | Token::Mov(_, im) | Token::Jmp(im) | Token::Jnc(im) | Token::OutIm(
                im,
            ) => im,
            Token::MovAB | Token::MovBA | Token::In(_) | Token::OutB => 0,
        }
    }

    /// The operand fits in four bits, so that encoding loses nothing.
    pub open spec fn wf(self) -> bool {
        self.spec_operand() <= 15
    }

    /// The byte that stands for this instruction.
    pub open spec fn encoding(self) -> u8 {
        pack(self.spec_opcode().spec_nibble(), self.spec_operand())
    }

    /// The kind of this instruction.
    #[verifier::when_used_as_spec(spec_opcode)]
    pub fn opcode(self) -> (kind: Opcodes)
        ensures
            kind == self.spec_opcode(),
    {
        match self {
            Token::Add(RegisterOp::A, _) => Opcodes::AddA,
            Token::Add(RegisterOp::B, _) => Opcodes::AddB,
            Token::Mov(RegisterOp::A, _) => Opcodes::MovA,
            Token::Mov(RegisterOp::B, _) => Opcodes::MovB,
            Token::MovAB => Opcodes::MovA2B,
            Token::MovBA => Opcodes::MovB2A,
            Token::Jmp(_) => Opcodes::Jmp,
            Token::Jnc(_) => Opcodes::Jnc,
            Token::In(RegisterOp::A) => Opcodes::InA,
            Token::In(RegisterOp::B) => Opcodes::InB,
            Token::OutB => Opcodes::OutB,
            Token::OutIm(_) => Opcodes::OutIm,
        }
    }
}

/// An instruction byte: the opcode nibble in the high four bits, the low four
/// bits of the operand below it. Operand bits above the fourth are dropped.
pub open spec fn pack(nibble: u8, operand: u8) -> u8
    recommends
        nibble <= 15,
{
    (nibble * 16 + operand % 16) as u8
}

/// What a byte decodes to: the kind that its high nibble selects, with the
/// low nibble as operand, or with zero for the kinds that ignore it. A high
/// nibble that selects no kind is an error that carries the nibble.
pub open spec fn decoding(byte: u8) -> Result<(Opcodes, u8), EmulatorErr> {
    match Opcodes::spec_from_nibble(byte / 16) {
        None => Err(EmulatorErr::UnknownOpcode(byte / 16)),
        Some(kind) => Ok(
            (
                kind,
                if kind.spec_ignores_operand() {
                    0u8
                } else {
                    byte % 16
                },
            ),
        ),
    }
}

/// Decoding the encoding of an instruction whose operand fits in four bits
/// gives back its kind and its operand.
pub proof fn lemma_decode_encode(token: Token)
    requires
        token.wf(),
    ensures
        decoding(token.encoding()) == Ok::<(Opcodes, u8), EmulatorErr>(
            (token.spec_opcode(), token.spec_operand()),
        ),
{
    let kind = token.spec_opcode();
    lemma_table_lookup(kind, kind.spec_nibble());
    assert(token.encoding() / 16 == kind.spec_nibble());
    assert(token.encoding() % 16 == token.spec_operand());
}

/// Whatever the operand, decoding an encoding gives back the kind, and the
/// operand cut down to its low four bits.
pub proof fn lemma_decode_encode_masks(token: Token)
    ensures
        decoding(token.encoding()) == Ok::<(Opcodes, u8), EmulatorErr>(
            (token.spec_opcode(), (token.spec_operand() % 16) as u8),
        ),
{
    let kind = token.spec_opcode();
    lemma_table_lookup(kind, kind.spec_nibble());
    assert(token.encoding() / 16 == kind.spec_nibble());
    assert(token.encoding() % 16 == token.spec_operand() % 16);
}

/// An instruction is determined by its kind and its operand: what decoding
/// gives back says which instruction was encoded.
pub proof fn lemma_kind_and_operand_fix_token(first: Token, second: Token)
    requires
        first.spec_opcode() == second.spec_opcode(),
        first.spec_operand() == second.spec_operand(),
    ensures
        first == second,
{
}

} // verus!
