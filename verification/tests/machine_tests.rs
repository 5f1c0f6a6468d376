use cpu_emulator::emulator::adapter::{Port, Rom};
use cpu_emulator::emulator::compiler::Compiler;
use cpu_emulator::emulator::executor::CPUemulator;
use cpu_emulator::emulator::instructions::{Opcodes, Token};
use cpu_emulator::emulator::parser::Parser;
use cpu_emulator::emulator::register::{Register, RegisterOp};
use cpu_emulator::EmulatorErr;

fn machine(a: u8, b: u8, carry: u8, pc: u8, input: u8, program: Vec<u8>) -> CPUemulator {
    let mut register = Register::new();
    register.set_register_a(a);
    register.set_register_b(b);
    register.set_carry_flag(carry);
    register.set_pc(pc);
    CPUemulator::new(register, Port::new(input, 0), Rom::new(program).unwrap())
}

fn assemble(program: Vec<Token>) -> Vec<u8> {
    Compiler::new().compile(program).unwrap()
}

fn state(emu: &CPUemulator) -> (u8, u8, u8, u8, u8) {
    (
        emu.register.register_a(),
        emu.register.register_b(),
        emu.register.carry_flag(),
        emu.register.pc(),
        emu.port.output(),
    )
}

fn every_token() -> Vec<Token> {
    let mut tokens = vec![
        Token::MovAB,
        Token::MovBA,
        Token::In(RegisterOp::A),
        Token::In(RegisterOp::B),
        Token::OutB,
    ];
    for im in 0u8..16 {
        tokens.push(Token::Add(RegisterOp::A, im));
        tokens.push(Token::Add(RegisterOp::B, im));
        tokens.push(Token::Mov(RegisterOp::A, im));
        tokens.push(Token::Mov(RegisterOp::B, im));
        tokens.push(Token::Jmp(im));
        tokens.push(Token::Jnc(im));
        tokens.push(Token::OutIm(im));
    }
    tokens
}

fn operand(token: Token) -> u8 {
    match token {
        Token::Add(_, im) | Token::Mov(_, im) | Token::Jmp(im) | Token::Jnc(im) => im,
        Token::OutIm(im) => im,
        _ => 0,
    }
}

#[test]
fn decoding_an_encoding_gives_the_instruction_back() {
    let emu = machine(0, 0, 0, 0, 0, vec![0]);
    let tokens = every_token();
    assert_eq!(tokens.len(), 5 + 7 * 16);
    for token in tokens {
        let code = assemble(vec![token]);
        assert_eq!(code.len(), 1);
        assert_eq!(emu.decode(code[0]), Ok((token.opcode(), operand(token))), "{:?}", token);
    }
}

#[test]
fn decode_splits_every_byte_by_the_table() {
    let emu = machine(0, 0, 0, 0, 0, vec![0]);
    for byte in 0u8..=255 {
        let high = byte >> 4;
        let low = byte & 0x0f;
        let expected = match Opcodes::from_nibble(high) {
            None => Err(EmulatorErr::UnknownOpcode(high)),
            Some(kind) => match kind {
                Opcodes::InA | Opcodes::InB | Opcodes::OutB => Ok((kind, 0)),
                _ => Ok((kind, low)),
            },
        };
        assert_eq!(emu.decode(byte), expected);
    }
}

#[test]
fn decode_examples() {
    let emu = machine(0, 0, 0, 0, 0, vec![0]);
    assert_eq!(emu.decode(0b0000_0101), Ok((Opcodes::AddA, 5)));
    assert_eq!(emu.decode(0b0001_0101), Ok((Opcodes::MovA2B, 5)));
    assert_eq!(emu.decode(0b0010_0101), Ok((Opcodes::InA, 0)));
    assert_eq!(emu.decode(0b0110_1111), Ok((Opcodes::InB, 0)));
    assert_eq!(emu.decode(0b1001_1111), Ok((Opcodes::OutB, 0)));
    assert_eq!(emu.decode(0b1011_1111), Ok((Opcodes::OutIm, 15)));
    assert_eq!(emu.decode(0b1000_0000), Err(EmulatorErr::UnknownOpcode(0b1000)));
    assert_eq!(emu.decode(0b1010_0001), Err(EmulatorErr::UnknownOpcode(0b1010)));
    assert_eq!(emu.decode(0b1100_1111), Err(EmulatorErr::UnknownOpcode(0b1100)));
    assert_eq!(emu.decode(0b1101_0110), Err(EmulatorErr::UnknownOpcode(0b1101)));
}

#[test]
fn fetch_reads_the_cell_under_the_counter() {
    let mut emu = machine(0, 0, 0, 0, 0, vec![0x31, 0x72, 0xb5]);
    assert_eq!(emu.fetch(), 0x31);
    emu.register.set_pc(2);
    assert_eq!(emu.fetch(), 0xb5);
}

#[test]
fn fetch_past_the_end_reads_zero() {
    let mut emu = machine(0, 0, 0, 3, 0, vec![0x31, 0x72, 0xb5]);
    assert_eq!(emu.fetch(), 0);
    emu.register.set_pc(15);
    assert_eq!(emu.fetch(), 0);
    emu.register.set_pc(200);
    assert_eq!(emu.fetch(), 0);
    let empty = machine(0, 0, 0, 0, 0, Vec::new());
    assert_eq!(empty.fetch(), 0);
}

#[test]
fn add_sets_carry_and_wraps() {
    let mut emu = machine(15, 0, 0, 0, 0, assemble(vec![Token::Add(RegisterOp::A, 2)]));
    assert_eq!(emu.execute(), Ok(()));
    assert_eq!(emu.register.register_a(), 1);
    assert_eq!(emu.register.carry_flag(), 1);

    let mut emu = machine(0, 9, 0, 0, 0, assemble(vec![Token::Add(RegisterOp::B, 7)]));
    assert_eq!(emu.execute(), Ok(()));
    assert_eq!(emu.register.register_b(), 0);
    assert_eq!(emu.register.carry_flag(), 1);

    let mut emu = machine(15, 15, 0, 0, 0, assemble(vec![Token::Add(RegisterOp::B, 15)]));
    assert_eq!(emu.execute(), Ok(()));
    assert_eq!(state(&emu), (15, 14, 1, 1, 0));
}

#[test]
fn add_without_overflow_leaves_carry_alone() {
    for carry in [0u8, 1] {
        let mut emu = machine(3, 0, carry, 0, 0, assemble(vec![Token::Add(RegisterOp::A, 12)]));
        assert_eq!(emu.execute(), Ok(()));
        assert_eq!(emu.register.register_a(), 15);
        assert_eq!(emu.register.carry_flag(), carry);
    }
}

#[test]
fn every_instruction_but_add_clears_carry() {
    for token in every_token() {
        let mut emu = machine(1, 2, 1, 0, 3, assemble(vec![token]));
        assert_eq!(emu.step(), Ok(true));
        let expected = match token {
            Token::Add(_, _) => 1,
            _ => 0,
        };
        assert_eq!(emu.register.carry_flag(), expected, "{:?}", token);
    }
}

#[test]
fn one_byte_program_halts_after_one_instruction() {
    let mut emu = machine(0, 0, 0, 0, 0, assemble(vec![Token::Mov(RegisterOp::A, 7)]));
    assert_eq!(emu.step(), Ok(true));
    assert_eq!(state(&emu), (7, 0, 0, 1, 0));

    let mut emu = machine(0, 0, 0, 0, 0, assemble(vec![Token::Mov(RegisterOp::A, 7)]));
    assert_eq!(emu.run(1000), Ok(true));
    assert_eq!(state(&emu), (7, 0, 0, 1, 0));
}

#[test]
fn last_instruction_of_a_longer_program_is_not_reached() {
    let program =
        assemble(vec![Token::Mov(RegisterOp::A, 1), Token::Mov(RegisterOp::B, 2), Token::OutIm(3)]);
    let mut emu = machine(0, 0, 0, 0, 0, program);
    assert_eq!(emu.execute(), Ok(()));
    assert_eq!(state(&emu), (1, 2, 0, 2, 0));

    let program = assemble(vec![Token::Mov(RegisterOp::A, 1), Token::Mov(RegisterOp::B, 2)]);
    let mut emu = machine(0, 0, 0, 0, 0, program);
    assert_eq!(emu.execute(), Ok(()));
    assert_eq!(state(&emu), (1, 0, 0, 1, 0));
}

#[test]
fn jump_overshoots_its_target() {
    let program =
        assemble(vec![Token::Jmp(2), Token::Mov(RegisterOp::A, 1), Token::Mov(RegisterOp::B, 2)]);
    assert_eq!(program, vec![0b1111_0010, 0b0011_0001, 0b0111_0010]);
    let mut emu = machine(0, 0, 0, 0, 0, program);
    assert_eq!(emu.step(), Ok(true));
    assert_eq!(state(&emu), (0, 0, 0, 3, 0));
}

#[test]
fn jump_skips_to_the_cell_after_its_target() {
    let program = assemble(vec![
        Token::Jmp(2),
        Token::Mov(RegisterOp::A, 1),
        Token::Mov(RegisterOp::A, 2),
        Token::Mov(RegisterOp::B, 3),
        Token::OutB,
        Token::OutIm(0),
    ]);
    let mut emu = machine(0, 0, 0, 0, 0, program);
    assert_eq!(emu.step(), Ok(false));
    assert_eq!(emu.register.pc(), 3);
    assert_eq!(emu.execute(), Ok(()));
    assert_eq!(state(&emu), (0, 3, 0, 5, 3));
}

#[test]
fn jump_to_the_last_cell_leaves_the_counter_at_sixteen() {
    let mut emu = machine(0, 0, 0, 0, 0, vec![0b1111_1111; 16]);
    assert_eq!(emu.execute(), Ok(()));
    assert_eq!(emu.register.pc(), 16);
}

#[test]
fn conditional_jump_is_taken_without_carry() {
    let program = vec![0b1110_0101, 0, 0, 0, 0, 0, 0, 0, 0];
    let mut emu = machine(0, 0, 0, 0, 0, program);
    assert_eq!(emu.step(), Ok(false));
    assert_eq!(emu.register.pc(), 6);
    assert_eq!(emu.register.carry_flag(), 0);
}

#[test]
fn conditional_jump_is_not_taken_with_carry() {
    let program = vec![0b1110_0101, 0, 0, 0, 0, 0, 0, 0, 0];
    let mut emu = machine(0, 0, 1, 0, 0, program);
    assert_eq!(emu.step(), Ok(false));
    assert_eq!(emu.register.pc(), 1);
    assert_eq!(emu.register.carry_flag(), 0);
}

#[test]
fn input_reaches_output_through_b() {
    let program = assemble(vec![Token::In(RegisterOp::B), Token::OutB, Token::OutIm(0)]);
    let mut emu = machine(0, 0, 0, 0, 9, program);
    assert_eq!(emu.execute(), Ok(()));
    assert_eq!(emu.port.output(), 9);
    assert_eq!(emu.port.input(), 9);
}

#[test]
fn input_reaches_output_through_a() {
    let program = assemble(vec![
        Token::In(RegisterOp::A),
        Token::MovAB,
        Token::OutB,
        Token::OutIm(0),
    ]);
    assert_eq!(program, vec![0b0010_0000, 0b0001_0000, 0b1001_0000, 0b1011_0000]);
    let mut emu = machine(0, 0, 0, 0, 9, program);
    assert_eq!(emu.execute(), Ok(()));
    assert_eq!(state(&emu), (9, 9, 0, 3, 9));
}

#[test]
fn input_does_not_reach_output_through_the_wrong_copy() {
    let program = assemble(vec![
        Token::In(RegisterOp::A),
        Token::MovBA,
        Token::OutB,
        Token::OutIm(0),
    ]);
    let mut emu = machine(0, 0, 0, 0, 9, program);
    assert_eq!(emu.execute(), Ok(()));
    assert_eq!(state(&emu), (0, 0, 0, 3, 0));
}

#[test]
fn register_copies_go_the_way_the_kinds_say() {
    let mut emu = machine(1, 2, 0, 0, 0, assemble(vec![Token::MovAB]));
    assert_eq!(emu.step(), Ok(true));
    assert_eq!(state(&emu), (1, 1, 0, 1, 0));
    let mut emu = machine(1, 2, 0, 0, 0, assemble(vec![Token::MovBA]));
    assert_eq!(emu.step(), Ok(true));
    assert_eq!(state(&emu), (2, 2, 0, 1, 0));

    let mut emu = machine(9, 0, 1, 0, 0, vec![0b0001_0000]);
    assert_eq!(emu.execute(), Ok(()));
    assert_eq!(state(&emu), (9, 9, 0, 1, 0));
    let mut emu = machine(0, 9, 1, 0, 0, vec![0b0100_0000]);
    assert_eq!(emu.execute(), Ok(()));
    assert_eq!(state(&emu), (9, 9, 0, 1, 0));
}

#[test]
fn instructions_one_by_one() {
    let start = || machine(3, 5, 1, 7, 9, vec![0; 4]);

    let mut emu = start();
    emu.mov_a(12);
    assert_eq!(state(&emu), (12, 5, 0, 7, 0));
    let mut emu = start();
    emu.mov_b(12);
    assert_eq!(state(&emu), (3, 12, 0, 7, 0));

    let mut emu = start();
    emu.mov_a2b();
    assert_eq!(state(&emu), (3, 3, 0, 7, 0));
    let mut emu = start();
    emu.mov_b2a();
    assert_eq!(state(&emu), (5, 5, 0, 7, 0));

    let mut emu = start();
    emu.jmp(2);
    assert_eq!(state(&emu), (3, 5, 0, 2, 0));
    let mut emu = start();
    emu.jnc(2);
    assert_eq!(state(&emu), (3, 5, 0, 7, 0));
    let mut emu = machine(3, 5, 0, 7, 9, vec![0; 4]);
    emu.jnc(2);
    assert_eq!(state(&emu), (3, 5, 0, 2, 0));

    let mut emu = start();
    emu.in_a();
    assert_eq!(state(&emu), (9, 5, 0, 7, 0));
    let mut emu = start();
    emu.in_b();
    assert_eq!(state(&emu), (3, 9, 0, 7, 0));
    assert_eq!(emu.port.input(), 9);

    let mut emu = start();
    emu.out_b();
    assert_eq!(state(&emu), (3, 5, 0, 7, 5));
    let mut emu = start();
    emu.out_im(14);
    assert_eq!(state(&emu), (3, 5, 0, 7, 14));
    assert_eq!(emu.port.input(), 9);

    let mut emu = start();
    emu.add_a(4);
    assert_eq!(state(&emu), (7, 5, 1, 7, 0));
    let mut emu = machine(3, 5, 0, 7, 9, vec![0; 4]);
    emu.add_a(12);
    assert_eq!(state(&emu), (15, 5, 0, 7, 0));
    emu.add_a(1);
    assert_eq!(state(&emu), (0, 5, 1, 7, 0));
    emu.add_b(11);
    assert_eq!(state(&emu), (0, 0, 1, 7, 0));
    let mut emu = machine(3, 5, 0, 7, 9, vec![0; 4]);
    emu.add_b(15);
    assert_eq!(state(&emu), (3, 4, 1, 7, 0));
}

#[test]
fn output_instructions() {
    let mut emu = machine(1, 6, 0, 0, 0, assemble(vec![Token::OutB]));
    assert_eq!(emu.execute(), Ok(()));
    assert_eq!(state(&emu), (1, 6, 0, 1, 6));
    let mut emu = machine(1, 6, 0, 0, 0, assemble(vec![Token::OutIm(11)]));
    assert_eq!(emu.execute(), Ok(()));
    assert_eq!(state(&emu), (1, 6, 0, 1, 11));
}

#[test]
fn unknown_opcode_aborts_and_changes_nothing() {
    let mut emu = machine(1, 2, 1, 0, 0, vec![0b1000_0001, 0, 0]);
    assert_eq!(emu.step(), Err(EmulatorErr::UnknownOpcode(0b1000)));
    assert_eq!(state(&emu), (1, 2, 1, 0, 0));
    assert_eq!(emu.execute(), Err(EmulatorErr::UnknownOpcode(0b1000)));
    assert_eq!(state(&emu), (1, 2, 1, 0, 0));
    assert_eq!(emu.run(5), Err(EmulatorErr::UnknownOpcode(0b1000)));
}

#[test]
fn unknown_opcode_aborts_in_the_middle_of_a_run() {
    let mut emu = machine(0, 0, 0, 0, 0, vec![0b0011_0100, 0b1101_0000, 0, 0]);
    assert_eq!(emu.execute(), Err(EmulatorErr::UnknownOpcode(0b1101)));
    assert_eq!(state(&emu), (4, 0, 0, 1, 0));
}

#[test]
fn empty_program_runs_one_cycle_on_the_zero_byte() {
    let mut emu = machine(5, 0, 0, 0, 0, Vec::new());
    assert_eq!(emu.execute(), Ok(()));
    assert_eq!(state(&emu), (5, 0, 0, 1, 0));
}

#[test]
fn run_stops_when_its_cycles_are_used_up() {
    // Cell 0 jumps to cell 0, and lands on cell 1, which does the same.
    let program = vec![0b1111_0000, 0b1111_0000, 0, 0];
    let mut emu = machine(0, 0, 0, 0, 0, program);
    assert_eq!(emu.run(0), Ok(false));
    assert_eq!(emu.register.pc(), 0);
    assert_eq!(emu.run(1), Ok(false));
    assert_eq!(emu.register.pc(), 1);
    assert_eq!(emu.run(1000), Ok(false));
    assert_eq!(emu.register.pc(), 1);
}

#[test]
fn run_counts_cycles() {
    let program = assemble(vec![
        Token::Add(RegisterOp::A, 1),
        Token::Add(RegisterOp::A, 1),
        Token::Add(RegisterOp::A, 1),
        Token::Add(RegisterOp::A, 1),
        Token::OutIm(0),
    ]);
    let mut emu = machine(0, 0, 0, 0, 0, program.clone());
    assert_eq!(emu.run(3), Ok(false));
    assert_eq!(state(&emu), (3, 0, 0, 3, 0));
    assert_eq!(emu.run(1), Ok(true));
    assert_eq!(state(&emu), (4, 0, 0, 4, 0));

    let mut emu = machine(0, 0, 0, 0, 0, program);
    assert_eq!(emu.run(4), Ok(true));
    assert_eq!(state(&emu), (4, 0, 0, 4, 0));
}

#[test]
fn counting_loop_runs_until_carry() {
    let program = assemble(vec![
        Token::Add(RegisterOp::A, 1),
        Token::Jnc(15),
        Token::OutIm(1),
        Token::OutIm(2),
    ]);
    let mut emu = machine(14, 0, 0, 0, 0, program);
    assert_eq!(emu.step(), Ok(false));
    assert_eq!(state(&emu), (15, 0, 0, 1, 0));
    assert_eq!(emu.step(), Ok(true));
    assert_eq!(state(&emu), (15, 0, 0, 16, 0));
}

#[test]
fn text_to_output() {
    let text = vec!["in A".to_string(), "add A 0011".to_string(), "mov B A".to_string()];
    let tokens = Parser::new(text).parse().unwrap();
    assert_eq!(tokens, vec![Token::In(RegisterOp::A), Token::Add(RegisterOp::A, 3), Token::MovAB]);
    let code = assemble(tokens);
    assert_eq!(code, vec![0b0010_0000, 0b0000_0011, 0b0001_0000]);
    let mut emu = machine(0, 0, 0, 0, 14, code);
    assert_eq!(emu.execute(), Ok(()));
    assert_eq!(state(&emu), (1, 0, 1, 2, 0));
}

#[test]
fn seventeen_bytes_are_no_program() {
    let compiled = assemble(vec![Token::OutIm(1); 17]);
    assert_eq!(compiled.len(), 17);
    assert!(matches!(Rom::new(compiled), Err(EmulatorErr::MemoryOverflow)));
}

#[test]
fn try_execute_runs_a_program_that_ends() {
    let program = assemble(vec![
        Token::Add(RegisterOp::A, 1),
        Token::Add(RegisterOp::A, 1),
        Token::OutIm(0),
    ]);
    let mut emu = machine(0, 0, 0, 0, 0, program);
    assert_eq!(emu.try_execute(), Some(Ok(())));
    assert_eq!(state(&emu), (2, 0, 0, 2, 0));
}

#[test]
fn try_execute_reports_a_byte_that_does_not_decode() {
    let mut emu = machine(0, 0, 0, 0, 0, vec![0b0011_0100, 0b1100_0000, 0, 0]);
    assert_eq!(emu.try_execute(), Some(Err(EmulatorErr::UnknownOpcode(0b1100))));
    assert_eq!(state(&emu), (4, 0, 0, 1, 0));
}

#[test]
fn try_execute_gives_up_on_a_program_without_end() {
    let program = vec![0b1111_0000, 0b1111_0000, 0, 0];
    let mut emu = machine(0, 0, 0, 0, 0, program);
    assert_eq!(emu.try_execute(), None);
    assert_eq!(emu.register.pc(), 1);
}

#[test]
fn try_execute_waits_for_a_long_program_to_end() {
    // A counts round sixteen times, B once: some hundreds of cycles before
    // the branch in cell 4 is not taken.
    let program = assemble(vec![
        Token::OutIm(0),
        Token::Add(RegisterOp::A, 1),
        Token::Jnc(0),
        Token::Add(RegisterOp::B, 1),
        Token::Jnc(0),
        Token::OutIm(7),
        Token::OutIm(0),
    ]);
    let mut emu = machine(0, 0, 0, 0, 0, program.clone());
    assert_eq!(emu.run(500), Ok(false));
    let mut emu = machine(0, 0, 0, 0, 0, program.clone());
    assert_eq!(emu.run(600), Ok(true));
    assert_eq!(state(&emu), (0, 0, 0, 6, 7));
    let mut emu = machine(0, 0, 0, 0, 0, program);
    assert_eq!(emu.try_execute(), Some(Ok(())));
    assert_eq!(state(&emu), (0, 0, 0, 6, 7));
}

#[test]
fn text_names_the_destination_first() {
    let text = vec!["in B".to_string(), "mov A B".to_string(), "out 0000".to_string()];
    let code = assemble(Parser::new(text).parse().unwrap());
    assert_eq!(code, vec![0b0110_0000, 0b0100_0000, 0b1011_0000]);
    let mut emu = machine(0, 0, 0, 0, 9, code);
    assert_eq!(emu.execute(), Ok(()));
    assert_eq!(state(&emu), (9, 9, 0, 2, 0));

    let text = vec!["in A".to_string(), "mov B A".to_string(), "out 0000".to_string()];
    let code = assemble(Parser::new(text).parse().unwrap());
    assert_eq!(code, vec![0b0010_0000, 0b0001_0000, 0b1011_0000]);
    let mut emu = machine(0, 0, 0, 0, 9, code);
    assert_eq!(emu.execute(), Ok(()));
    assert_eq!(state(&emu), (9, 9, 0, 2, 0));
}
