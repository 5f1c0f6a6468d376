use crate::emulator::instructions::{pack, Token};
use crate::EmulatorErr;
use vstd::prelude::*;

verus! {

/// The bytes that a list of instructions assembles to, one byte each.
pub open spec fn assembled(tokens: Seq<Token>) -> Seq<u8> {
    Seq::new(tokens.len(), |i: int| tokens[i].encoding())
}

/// The assembler's back end: packs instructions into bytes.
#[derive(Debug, Default)]
pub struct Compiler;

impl Compiler {
    pub fn new() -> Compiler {
        Compiler
    }

    /// Assembles a program. An empty program is rejected; otherwise every
    /// instruction becomes one byte, in order. An immediate wider than four
    /// bits loses its upper bits.
    pub fn compile(&self, tokens: Vec<Token>) -> (res: Result<Vec<u8>, EmulatorErr>)
        ensures
            tokens@.len() == 0 ==> (res matches Err(e) && e == EmulatorErr::EmptyProgram),
            tokens@.len() > 0 ==> (res matches Ok(code) && code@ == assembled(tokens@)),
    {
        if tokens.len() == 0 {
            return Err(EmulatorErr::EmptyProgram);
        }
        let mut bin_codes: Vec<u8> = Vec::new();
        let mut i: usize = 0;
        while i < tokens.len()
            invariant
                i <= tokens.len(),
                bin_codes@ == assembled(tokens@.take(i as int)),
            decreases tokens.len() - i,
        {
            let token = tokens[i];
            let op: u8 = token.opcode().nibble();
            let code: u8 = match token {
                Token::Add(_, im) | Token::Mov(_, im) | Token::Jmp(im) | Token::Jnc(im)
                | Token::OutIm(im) => self.gen_binary(op, im),
                Token::MovAB | Token::MovBA | Token::In(_) | Token::OutB => {
                    self.gen_binary_with_zero(op)
                },
            };
            bin_codes.push(code);
            i += 1;
            assert(bin_codes@ =~= assembled(tokens@.take(i as int)));
        }
        assert(tokens@.take(i as int) =~= tokens@);
        Ok(bin_codes)
    }

    /// Packs an opcode nibble and an operand into one byte.
    fn gen_binary(&self, op: u8, im: u8) -> (code: u8)
        requires
            op <= 15,
        ensures
            code == pack(op, im),
    {
        let shift_op: u8 = op << 4;
        let shift_data: u8 = im & 0x0f;
        assert((op << 4u8) | (im & 0x0f) == (op * 16 + im % 16) as u8) by (bit_vector)
            requires
                op <= 15,
        ;
        shift_op | shift_data
    }

    /// Packs an opcode nibble into a byte whose operand bits are zero.
    fn gen_binary_with_zero(&self, op: u8) -> (code: u8)
        requires
            op <= 15,
        ensures
            code == pack(op, 0),
    {
        let shift_op: u8 = op << 4;
        let shift_data: u8 = 0b0000 & 0x0f;
        assert((op << 4u8) | (0u8 & 0x0f) == (op * 16 + 0u8 % 16) as u8) by (bit_vector)
            requires
                op <= 15,
        ;
        shift_op | shift_data
    }
}

} // verus!
