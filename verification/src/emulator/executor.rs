use crate::emulator::adapter::{Port, PortState, Rom};
use crate::emulator::instructions::{decoding, Opcodes};
use crate::emulator::machine::{
    lemma_cycle_keeps_range, lemma_end_is_the_end, lemma_long_run_never_stops, Machine, Progress,
    CYCLE_BOUND,
};
use crate::emulator::register::{Register, RegisterState};
use crate::EmulatorErr;
use vstd::prelude::*;

verus! {

/// The outcome of a finished run, as the model names it.
pub open spec fn progress_of(res: Result<(), EmulatorErr>) -> Progress {
    match res {
        Ok(()) => Progress::Halted,
        Err(e) => Progress::Failed(e),
    }
}

/// The state of a run that was granted a number of cycles, as the model
/// names it: halted, still running when the cycles were used up, or failed.
pub open spec fn progress_within(res: Result<bool, EmulatorErr>) -> Progress {
    match res {
        Ok(true) => Progress::Halted,
        Ok(false) => Progress::Running,
        Err(e) => Progress::Failed(e),
    }
}

/// The execution engine: a register file, a port and a program, driven
/// through the fetch, decode, execute and advance cycle.
pub struct CPUemulator {
    pub register: Register,
    pub port: Port,
    pub rom: Rom,
}

impl View for CPUemulator {
    type V = Machine;

    open spec fn view(&self) -> Machine {
        Machine { register: self.register@, port: self.port@, rom: self.rom@ }
    }
}

impl CPUemulator {
    /// Puts a machine together from its parts, as they are.
    pub fn new(register: Register, port: Port, rom: Rom) -> (emulator: Self)
        ensures
            emulator.register == register,
            emulator.port == port,
            emulator.rom == rom,
    {
        Self { register, port, rom }
    }

    /// Reads the byte under the program counter, or zero past the end of
    /// the program.
    pub fn fetch(&self) -> (data: u8)
        ensures
            data == self@.fetch(),
    {
        let pc: u8 = self.register.pc();
        if self.rom.size() <= pc {
            return 0;
        }
        self.rom.read(pc)
    }

    /// Splits a byte into instruction kind and operand.
    pub fn decode(&self, data: u8) -> (res: Result<(Opcodes, u8), EmulatorErr>)
        ensures
            res == decoding(data),
    {
        let op: u8 = data >> 4;
        let im: u8 = data & 0x0f;
        assert(data >> 4u8 == data / 16 && data & 0x0f == data % 16) by (bit_vector);
        match Opcodes::from_nibble(op) {
            Some(opcode) => if opcode.ignores_operand() {
                Ok((opcode, 0))
            } else {
                Ok((opcode, im))
            },
            None => Err(EmulatorErr::UnknownOpcode(op)),
        }
    }

    /// Runs one cycle. A byte that does not decode is reported and changes
    /// nothing; otherwise the instruction takes effect, the program counter
    /// moves on, and the result says whether the machine has halted.
    pub fn step(&mut self) -> (res: Result<bool, EmulatorErr>)
        requires
            old(self)@.wf(),
        ensures
            match old(self)@.cycle() {
                Ok(next) => final(self)@ == next && res == Ok::<bool, EmulatorErr>(next.halted()),
                Err(e) => final(self)@ == old(self)@ && res == Err::<bool, EmulatorErr>(e),
            },
    {
        let data: u8 = self.fetch();
        let (opcode, immediate) = match self.decode(data) {
            Ok(decoded) => decoded,
            Err(e) => {
                return Err(e);
            },
        };
        match opcode {
            Opcodes::AddA => self.add_a(immediate),
            Opcodes::AddB => self.add_b(immediate),
            Opcodes::MovA => self.mov_a(immediate),
            Opcodes::MovB => self.mov_b(immediate),
            Opcodes::MovA2B => self.mov_a2b(),
            Opcodes::MovB2A => self.mov_b2a(),
            Opcodes::Jmp => self.jmp(immediate),
            Opcodes::Jnc => self.jnc(immediate),
            Opcodes::InA => self.in_a(),
            Opcodes::InB => self.in_b(),
            Opcodes::OutB => self.out_b(),
            Opcodes::OutIm => self.out_im(immediate),
        };
        self.register.inc_pc();
        Ok(self.halt())
    }

    /// Runs the program to its end: cycle after cycle until the machine
    /// halts, or a byte does not decode. A program that never gets there
    /// cannot be run to its end; `step` runs any program a cycle at a time.
    pub fn execute(&mut self) -> (res: Result<(), EmulatorErr>)
        requires
            old(self)@.wf(),
            old(self)@.terminates(),
        ensures
            forall|cycles: nat| #[trigger]
                old(self)@.stops_within(cycles) ==> old(self)@.run(cycles) == (
                    final(self)@,
                    progress_of(res),
                ),
    {
        let ghost start = self@;
        let ghost granted: nat = choose|cycles: nat| start.stops_within(cycles);
        let ghost mut left: nat = granted;
        loop
            invariant
                start == old(self)@,
                start.stops_within(granted),
                self@.wf(),
                self@.stops_within(left),
                start.run(granted) == self@.run(left),
            decreases left,
        {
            proof {
                lemma_cycle_keeps_range(self@);
            }
            match self.step() {
                Err(e) => {
                    proof {
                        lemma_end_is_the_end(start, granted);
                    }
                    return Err(e);
                },
                Ok(halted) => {
                    if halted {
                        proof {
                            lemma_end_is_the_end(start, granted);
                        }
                        return Ok(());
                    }
                    proof {
                        left = (left - 1) as nat;
                    }
                },
            }
        }
    }

    /// Runs the program to its end if it has one, and says so if it has
    /// none: a run that is still going after `CYCLE_BOUND` cycles never
    /// stops, and is given up where those cycles left it.
    pub fn try_execute(&mut self) -> (res: Option<Result<(), EmulatorErr>>)
        requires
            old(self)@.wf(),
        ensures
            res is Some <==> old(self)@.terminates(),
            res matches Some(end) ==> forall|cycles: nat| #[trigger]
                old(self)@.stops_within(cycles) ==> old(self)@.run(cycles) == (
                    final(self)@,
                    progress_of(end),
                ),
            res is None ==> old(self)@.run(CYCLE_BOUND as nat) == (final(self)@, Progress::Running),
    {
        let ghost start = self@;
        match self.run(CYCLE_BOUND) {
            Ok(false) => {
                proof {
                    lemma_long_run_never_stops(start);
                }
                None
            },
            Ok(true) => {
                proof {
                    lemma_end_is_the_end(start, CYCLE_BOUND as nat);
                }
                Some(Ok(()))
            },
            Err(e) => {
                proof {
                    lemma_end_is_the_end(start, CYCLE_BOUND as nat);
                }
                Some(Err(e))
            },
        }
    }

    /// Runs at most `cycles` cycles and says whether the machine has halted
    /// within them. Unlike `execute` it takes any program: one that never
    /// halts uses its cycles up and is left where they ended.
    pub fn run(&mut self, cycles: u64) -> (res: Result<bool, EmulatorErr>)
        requires
            old(self)@.wf(),
        ensures
            old(self)@.run(cycles as nat) == (final(self)@, progress_within(res)),
    {
        let ghost start = self@;
        let mut left: u64 = cycles;
        while left > 0
            invariant
                start == old(self)@,
                self@.wf(),
                start.run(cycles as nat) == self@.run(left as nat),
            decreases left,
        {
            proof {
                lemma_cycle_keeps_range(self@);
            }
            match self.step() {
                Err(e) => {
                    return Err(e);
                },
                Ok(halted) => {
                    if halted {
                        return Ok(true);
                    }
                },
            }
            left -= 1;
        }
        Ok(false)
    }

    /// Whether the halt condition holds.
    fn halt(&self) -> (halted: bool)
        requires
            self@.register.pc < u8::MAX,
        ensures
            halted == self@.halted(),
    {
        self.rom.size() <= self.register.pc() + 1
    }

    /// Adds the immediate to register A. The sum wraps at four bits; the
    /// carry flag is set if it did not fit and left alone if it did.
    pub fn add_a(&mut self, immediate: u8)
        requires
            old(self)@.register.a + immediate <= u8::MAX,
        ensures
            final(self)@ == old(self)@.apply(Opcodes::AddA, immediate),
    {
        let register_a: u8 = self.register.register_a();
        let value: u8 = register_a + immediate;
        if value > 0x0f {
            self.register.set_carry_flag(1);
        }
        assert(value & 0x0f == value % 16) by (bit_vector);
        self.register.set_register_a(value & 0x0f);
    }

    /// Adds the immediate to register B. The sum wraps at four bits; the
    /// carry flag is set if it did not fit and left alone if it did.
    pub fn add_b(&mut self, immediate: u8)
        requires
            old(self)@.register.b + immediate <= u8::MAX,
        ensures
            final(self)@ == old(self)@.apply(Opcodes::AddB, immediate),
    {
        let register_b: u8 = self.register.register_b();
        let value: u8 = register_b + immediate;
        if value > 0x0f {
            self.register.set_carry_flag(1);
        }
        assert(value & 0x0f == value % 16) by (bit_vector);
        self.register.set_register_b(value & 0x0f);
    }

    /// Loads the immediate into register A and clears the carry flag.
    pub fn mov_a(&mut self, immediate: u8)
        ensures
            final(self)@ == old(self)@.apply(Opcodes::MovA, immediate),
            final(self)@.register == (RegisterState {
                a: immediate as nat,
                carry: 0,
                ..old(self)@.register
            }),
    {
        self.register.set_register_a(immediate);
        self.register.set_carry_flag(0)
    }

    /// Loads the immediate into register B and clears the carry flag.
    pub fn mov_b(&mut self, immediate: u8)
        ensures
            final(self)@ == old(self)@.apply(Opcodes::MovB, immediate),
            final(self)@.register == (RegisterState {
                b: immediate as nat,
                carry: 0,
                ..old(self)@.register
            }),
    {
        self.register.set_register_b(immediate);
        self.register.set_carry_flag(0)
    }

    /// Copies register A into register B and clears the carry flag.
    pub fn mov_a2b(&mut self)
        ensures
            final(self)@ == old(self)@.apply(Opcodes::MovA2B, 0),
            final(self)@.register == (RegisterState {
                b: old(self)@.register.a,
                carry: 0,
                ..old(self)@.register
            }),
    {
        let register_a: u8 = self.register.register_a();
        self.register.set_register_b(register_a);
        self.register.set_carry_flag(0)
    }

    /// Copies register B into register A and clears the carry flag.
    pub fn mov_b2a(&mut self)
        ensures
            final(self)@ == old(self)@.apply(Opcodes::MovB2A, 0),
            final(self)@.register == (RegisterState {
                a: old(self)@.register.b,
                carry: 0,
                ..old(self)@.register
            }),
    {
        let register_b: u8 = self.register.register_b();
        self.register.set_register_a(register_b);
        self.register.set_carry_flag(0)
    }

    /// Sets the program counter to the immediate and clears the carry flag.
    /// Moving the counter on afterwards is the cycle's business.
    pub fn jmp(&mut self, immediate: u8)
        ensures
            final(self)@ == old(self)@.apply(Opcodes::Jmp, immediate),
            final(self)@.register == (RegisterState {
                pc: immediate as nat,
                carry: 0,
                ..old(self)@.register
            }),
    {
        self.register.set_pc(immediate);
        self.register.set_carry_flag(0);
    }

    /// Sets the program counter to the immediate if the carry flag is clear,
    /// leaves it alone if the flag is set, and clears the flag either way.
    pub fn jnc(&mut self, immediate: u8)
        ensures
            final(self)@ == old(self)@.apply(Opcodes::Jnc, immediate),
            final(self)@.register == (RegisterState {
                pc: if old(self)@.register.carry == 0 {
                    immediate as nat
                } else {
                    old(self)@.register.pc
                },
                carry: 0,
                ..old(self)@.register
            }),
    {
        if self.register.carry_flag() == 0 {
            self.register.set_pc(immediate);
        }
        self.register.set_carry_flag(0);
    }

    /// Reads the input latch into register A and clears the carry flag.
    pub fn in_a(&mut self)
        ensures
            final(self)@ == old(self)@.apply(Opcodes::InA, 0),
            final(self)@.register == (RegisterState {
                a: old(self)@.port.input,
                carry: 0,
                ..old(self)@.register
            }),
    {
        let input: u8 = self.port.input();
        self.register.set_register_a(input);
        self.register.set_carry_flag(0);
    }

    /// Reads the input latch into register B and clears the carry flag.
    pub fn in_b(&mut self)
        ensures
            final(self)@ == old(self)@.apply(Opcodes::InB, 0),
            final(self)@.register == (RegisterState {
                b: old(self)@.port.input,
                carry: 0,
                ..old(self)@.register
            }),
    {
        let input: u8 = self.port.input();
        self.register.set_register_b(input);
        self.register.set_carry_flag(0);
    }

    /// Writes register B to the output latch and clears the carry flag.
    pub fn out_b(&mut self)
        ensures
            final(self)@ == old(self)@.apply(Opcodes::OutB, 0),
            final(self)@.port == (PortState { output: old(self)@.register.b, ..old(self)@.port }),
            final(self)@.register == (RegisterState { carry: 0, ..old(self)@.register }),
    {
        let register_b: u8 = self.register.register_b();
        self.port.set_output(register_b);
        self.register.set_carry_flag(0);
    }

    /// Writes the immediate to the output latch and clears the carry flag.
    pub fn out_im(&mut self, immediate: u8)
        ensures
            final(self)@ == old(self)@.apply(Opcodes::OutIm, immediate),
            final(self)@.port == (PortState { output: immediate as nat, ..old(self)@.port }),
            final(self)@.register == (RegisterState { carry: 0, ..old(self)@.register }),
    {
        self.port.set_output(immediate);
        self.register.set_carry_flag(0);
    }
}

} // verus!
