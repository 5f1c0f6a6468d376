use crate::emulator::adapter::{PortState, ROM_CAPACITY};
use crate::emulator::instructions::{decoding, Opcodes};
use crate::emulator::register::RegisterState;
use crate::EmulatorErr;
use vstd::prelude::*;

verus! {

/// The whole machine as a mathematical value: registers, port and program.
pub struct Machine {
    pub register: RegisterState,
    pub port: PortState,
    pub rom: Seq<u8>,
}

/// How far a run has come.
pub enum Progress {
    /// Neither halted nor failed within the cycles granted.
    Running,
    /// The halt condition held after a cycle.
    Halted,
    /// A fetched byte did not decode.
    Failed(EmulatorErr),
}

impl Machine {
    /// Registers and latches are in their architectural ranges and the
    /// program fits in memory.
    pub open spec fn wf(self) -> bool {
        &&& self.register.wf()
        &&& self.port.wf()
        &&& self.rom.len() <= ROM_CAPACITY
    }

    /// The byte under the program counter; zero where the counter points
    /// past the end of the program.
    pub open spec fn fetch(self) -> u8 {
        if self.register.pc < self.rom.len() {
            self.rom[self.register.pc as int]
        } else {
            0
        }
    }

    /// The effect of one instruction on registers and port, before the
    /// program counter is advanced. Only the two additions leave the carry
    /// flag alone or set it; everything else clears it.
    pub open spec fn apply(self, kind: Opcodes, im: u8) -> Machine {
        let r = self.register;
        match kind {
            Opcodes::AddA => Machine {
                register: RegisterState {
                    a: ((r.a + im) % 16) as nat,
                    carry: if r.a + im > 15 {
                        1
                    } else {
                        r.carry
                    },
                    ..r
                },
                ..self
            },
            Opcodes::AddB => Machine {
                register: RegisterState {
                    b: ((r.b + im) % 16) as nat,
                    carry: if r.b + im > 15 {
                        1
                    } else {
                        r.carry
                    },
                    ..r
                },
                ..self
            },
            Opcodes::MovA => Machine {
                register: RegisterState { a: im as nat, carry: 0, ..r },
                ..self
            },
            Opcodes::MovB => Machine {
                register: RegisterState { b: im as nat, carry: 0, ..r },
                ..self
            },
            Opcodes::MovA2B => Machine { register: RegisterState { b: r.a, carry: 0, ..r }, ..self },
            Opcodes::MovB2A => Machine { register: RegisterState { a: r.b, carry: 0, ..r }, ..self },
            Opcodes::Jmp => Machine {
                register: RegisterState { pc: im as nat, carry: 0, ..r },
                ..self
            },
            Opcodes::Jnc => Machine {
                register: RegisterState {
                    pc: if r.carry == 0 {
                        im as nat
                    } else {
                        r.pc
                    },
                    carry: 0,
                    ..r
                },
                ..self
            },
            Opcodes::InA => Machine {
                register: RegisterState { a: self.port.input, carry: 0, ..r },
                ..self
            },
            Opcodes::InB => Machine {
                register: RegisterState { b: self.port.input, carry: 0, ..r },
                ..self
            },
            Opcodes::OutB => Machine {
                register: RegisterState { carry: 0, ..r },
                port: PortState { output: r.b, ..self.port },
                ..self
            },
            Opcodes::OutIm => Machine {
                register: RegisterState { carry: 0, ..r },
                port: PortState { output: im as nat, ..self.port },
                ..self
            },
        }
    }

    /// The machine with its program counter moved on by one.
    pub open spec fn advance(self) -> Machine {
        Machine { register: RegisterState { pc: self.register.pc + 1, ..self.register }, ..self }
    }

    /// The halt condition: the cell after the one under the program counter
    /// is no longer part of the program.
    pub open spec fn halted(self) -> bool {
        self.rom.len() <= self.register.pc + 1
    }

    /// One cycle: fetch, decode, apply, advance. The counter is advanced
    /// after every instruction, a jump included. A byte that does not decode
    /// changes nothing and is reported.
    pub open spec fn cycle(self) -> Result<Machine, EmulatorErr> {
        match decoding(self.fetch()) {
            Err(e) => Err(e),
            Ok((kind, im)) => Ok(self.apply(kind, im).advance()),
        }
    }

    /// The machine after at most `cycles` cycles, and how it got there: it
    /// runs cycle after cycle until the halt condition holds after one, a
    /// byte does not decode, or the cycles are used up.
    pub open spec fn run(self, cycles: nat) -> (Machine, Progress)
        decreases cycles,
    {
        if cycles == 0 {
            (self, Progress::Running)
        } else {
            match self.cycle() {
                Err(e) => (self, Progress::Failed(e)),
                Ok(next) => if next.halted() {
                    (next, Progress::Halted)
                } else {
                    next.run((cycles - 1) as nat)
                },
            }
        }
    }

    /// Whether the run has ended, one way or the other, within `cycles`
    /// cycles.
    pub open spec fn stops_within(self, cycles: nat) -> bool {
        !(self.run(cycles).1 is Running)
    }

    /// Whether the run ends at all.
    pub open spec fn terminates(self) -> bool {
        exists|cycles: nat| self.stops_within(cycles)
    }
}

/// Every instruction but the two additions leaves the carry flag cleared,
/// whatever it was before.
pub proof fn lemma_only_add_keeps_carry(m: Machine, kind: Opcodes, im: u8)
    requires
        kind != Opcodes::AddA,
        kind != Opcodes::AddB,
    ensures
        m.apply(kind, im).register.carry == 0,
{
}

/// An addition wraps at four bits and sets the carry flag exactly when the
/// sum does not fit; it never clears the flag.
pub proof fn lemma_add_carries(m: Machine, im: u8)
    ensures
        m.apply(Opcodes::AddA, im).register.a == (m.register.a + im) % 16,
        m.apply(Opcodes::AddB, im).register.b == (m.register.b + im) % 16,
        m.register.a + im > 15 ==> m.apply(Opcodes::AddA, im).register.carry == 1,
        m.register.a + im <= 15 ==> m.apply(Opcodes::AddA, im).register.carry == m.register.carry,
        m.register.b + im > 15 ==> m.apply(Opcodes::AddB, im).register.carry == 1,
        m.register.b + im <= 15 ==> m.apply(Opcodes::AddB, im).register.carry == m.register.carry,
{
}

/// A register copy goes from the register named first to the one named
/// second: afterwards both hold what the source held, and nothing but the
/// carry flag has changed besides.
pub proof fn lemma_register_copies(m: Machine, im: u8)
    ensures
        m.apply(Opcodes::MovA2B, im) == (Machine {
            register: RegisterState { b: m.register.a, carry: 0, ..m.register },
            ..m
        }),
        m.apply(Opcodes::MovB2A, im) == (Machine {
            register: RegisterState { a: m.register.b, carry: 0, ..m.register },
            ..m
        }),
{
}

/// Loads, inputs and outputs: each moves one value to one place, clears the
/// carry flag and leaves everything else as it was.
pub proof fn lemma_moves(m: Machine, im: u8)
    ensures
        m.apply(Opcodes::MovA, im) == (Machine {
            register: RegisterState { a: im as nat, carry: 0, ..m.register },
            ..m
        }),
        m.apply(Opcodes::MovB, im) == (Machine {
            register: RegisterState { b: im as nat, carry: 0, ..m.register },
            ..m
        }),
        m.apply(Opcodes::InA, im) == (Machine {
            register: RegisterState { a: m.port.input, carry: 0, ..m.register },
            ..m
        }),
        m.apply(Opcodes::InB, im) == (Machine {
            register: RegisterState { b: m.port.input, carry: 0, ..m.register },
            ..m
        }),
        m.apply(Opcodes::OutB, im) == (Machine {
            register: RegisterState { carry: 0, ..m.register },
            port: PortState { output: m.register.b, ..m.port },
            ..m
        }),
        m.apply(Opcodes::OutIm, im) == (Machine {
            register: RegisterState { carry: 0, ..m.register },
            port: PortState { output: im as nat, ..m.port },
            ..m
        }),
        m.apply(Opcodes::Jmp, im) == (Machine {
            register: RegisterState { pc: im as nat, carry: 0, ..m.register },
            ..m
        }),
{
}

/// The conditional jump sets the program counter to its operand when the
/// carry flag is clear and leaves it alone when the flag is set; either way
/// the flag is clear afterwards.
pub proof fn lemma_jump_if_no_carry(m: Machine, im: u8)
    ensures
        m.register.carry == 0 ==> m.apply(Opcodes::Jnc, im).register.pc == im,
        m.register.carry != 0 ==> m.apply(Opcodes::Jnc, im).register.pc == m.register.pc,
        m.apply(Opcodes::Jnc, im).register.carry == 0,
{
}

/// A jump lands one cell past its target: the counter is set to the operand
/// and then advanced like after any other instruction.
pub proof fn lemma_jump_overshoots(m: Machine, im: u8)
    requires
        decoding(m.fetch()) == Ok::<(Opcodes, u8), EmulatorErr>((Opcodes::Jmp, im)),
    ensures
        m.cycle() matches Ok(next) && next.register.pc == im + 1,
{
}

/// A cycle keeps registers and latches in range and the program and the
/// input latch as they were. The program counter may leave its range by one,
/// and only in a machine that has halted.
pub proof fn lemma_cycle_keeps_range(m: Machine)
    requires
        m.wf(),
    ensures
        m.cycle() matches Ok(next) ==> {
            &&& next.register.a <= 15
            &&& next.register.b <= 15
            &&& next.register.carry <= 1
            &&& 1 <= next.register.pc <= 16
            &&& next.port.wf()
            &&& next.port.input == m.port.input
            &&& next.rom == m.rom
            &&& (!next.halted() ==> next.wf())
        },
{
}

/// However long a machine runs, its registers and latches stay in range
/// and its program and input latch stay as they were. Only the program
/// counter of a machine that has halted may stand one past its range.
pub proof fn lemma_run_keeps_range(m: Machine, cycles: nat)
    requires
        m.wf(),
    ensures
        ({
            let end = m.run(cycles).0;
            &&& end.register.a <= 15
            &&& end.register.b <= 15
            &&& end.register.carry <= 1
            &&& end.register.pc <= 16
            &&& end.port.wf()
            &&& end.port.input == m.port.input
            &&& end.rom == m.rom
            &&& (!(m.run(cycles).1 is Halted) ==> end.wf())
        }),
    decreases cycles,
{
    if cycles > 0 {
        lemma_cycle_keeps_range(m);
        if let Ok(next) = m.cycle() {
            if !next.halted() {
                lemma_run_keeps_range(next, (cycles - 1) as nat);
            }
        }
    }
}

/// A program of one or two bytes halts after its first cycle.
pub proof fn lemma_short_program_halts(m: Machine)
    requires
        m.rom.len() <= 2,
    ensures
        m.cycle() matches Ok(next) ==> m.run(1) == (next, Progress::Halted),
        m.cycle() matches Err(e) ==> m.run(1) == (m, Progress::Failed(e)),
{
}

/// Once a run has ended, granting it more cycles changes nothing.
pub proof fn lemma_run_settles(m: Machine, cycles: nat, more: nat)
    requires
        m.stops_within(cycles),
        cycles <= more,
    ensures
        m.run(more) == m.run(cycles),
    decreases cycles,
{
    if cycles > 0 {
        if let Ok(next) = m.cycle() {
            if !next.halted() {
                lemma_run_settles(next, (cycles - 1) as nat, (more - 1) as nat);
            }
        }
    }
}

/// The end that a run reaches within some number of cycles is the end it
/// reaches within any number of cycles that lets it stop.
pub proof fn lemma_end_is_the_end(m: Machine, granted: nat)
    requires
        m.stops_within(granted),
    ensures
        forall|cycles: nat| #[trigger] m.stops_within(cycles) ==> m.run(cycles) == m.run(granted),
{
    assert forall|cycles: nat| #[trigger] m.stops_within(cycles) implies m.run(cycles) == m.run(
        granted,
    ) by {
        lemma_run_has_one_end(m, cycles, granted);
    }
}

/// A run has one end: any two numbers of cycles within which it stops lead
/// to the same machine and the same outcome.
pub proof fn lemma_run_has_one_end(m: Machine, first: nat, second: nat)
    requires
        m.stops_within(first),
        m.stops_within(second),
    ensures
        m.run(first) == m.run(second),
{
    if first <= second {
        lemma_run_settles(m, first, second);
    } else {
        lemma_run_settles(m, second, first);
    }
}

/// The number of register states in range. A run that takes more cycles
/// than this has been in some state twice.
pub const CYCLE_BOUND: u64 = 8192;

impl RegisterState {
    /// A number for each register state in range, different for different
    /// states and below `CYCLE_BOUND`.
    pub open spec fn index(self) -> int {
        (self.a + 16 * self.b + 256 * self.carry + 512 * self.pc) as int
    }
}

impl Machine {
    /// Whether two machines take the same course: same registers, same
    /// program, same input. What the output latch holds steers nothing.
    pub open spec fn steers_like(self, other: Machine) -> bool {
        &&& self.register == other.register
        &&& self.rom == other.rom
        &&& self.port.input == other.port.input
    }
}

/// Of more numbers than there are values for them, two are equal.
proof fn lemma_pigeonhole(f: spec_fn(int) -> int, n: nat)
    requires
        forall|i: int| 0 <= i <= n ==> 0 <= #[trigger] f(i) < n,
    ensures
        exists|i: int, j: int| 0 <= i < j <= n && #[trigger] f(i) == #[trigger] f(j),
    decreases n,
{
    if n == 0 {
        assert(0 <= f(0) < n);
    } else {
        let last = f(n as int);
        if exists|i: int| 0 <= i < n && #[trigger] f(i) == last {
            let i = choose|i: int| 0 <= i < n && #[trigger] f(i) == last;
            assert(0 <= i < n <= n && f(i) == f(n as int));
        } else {
            let g = |i: int|
                if f(i) > last {
                    f(i) - 1
                } else {
                    f(i)
                };
            assert forall|i: int| 0 <= i <= n - 1 implies 0 <= #[trigger] g(i) < n - 1 by {
                assert(0 <= f(i) < n);
                assert(f(i) != last);
            }
            lemma_pigeonhole(g, (n - 1) as nat);
            let (i, j) = choose|i: int, j: int|
                0 <= i < j <= n - 1 && #[trigger] g(i) == #[trigger] g(j);
            assert(f(i) != last && f(j) != last);
            assert(0 <= i < j <= n && f(i) == f(j));
        }
    }
}

/// Machines that take the same course stop within the same number of
/// cycles.
pub proof fn lemma_same_course(first: Machine, second: Machine, cycles: nat)
    requires
        first.steers_like(second),
    ensures
        first.stops_within(cycles) == second.stops_within(cycles),
    decreases cycles,
{
    if cycles > 0 {
        if let Ok(next) = first.cycle() {
            let other = second.cycle()->Ok_0;
            assert(next.steers_like(other));
            if !next.halted() {
                lemma_same_course(next, other, (cycles - 1) as nat);
            }
        }
    }
}

/// A run that has not stopped after some cycles goes on from where those
/// cycles left it, and they left it well-formed and steered by the same
/// program and input.
pub proof fn lemma_run_goes_on(m: Machine, cycles: nat, more: nat)
    requires
        m.wf(),
        !m.stops_within(cycles),
    ensures
        m.run(cycles + more) == m.run(cycles).0.run(more),
        m.run(cycles).0.wf(),
        m.run(cycles).0.rom == m.rom,
        m.run(cycles).0.port.input == m.port.input,
    decreases cycles,
{
    if cycles > 0 {
        lemma_cycle_keeps_range(m);
        let next = m.cycle()->Ok_0;
        lemma_run_goes_on(next, (cycles - 1) as nat, more);
    }
}

/// A machine that comes back, after at least one cycle and without having
/// stopped, to the course it started on never stops.
proof fn lemma_loop_never_stops(m: Machine, period: nat, cycles: nat)
    requires
        m.wf(),
        period > 0,
        !m.stops_within(period),
        m.steers_like(m.run(period).0),
    ensures
        !m.stops_within(cycles),
    decreases cycles,
{
    if m.stops_within(cycles) {
        if cycles <= period {
            lemma_run_settles(m, cycles, period);
        } else {
            let rest = (cycles - period) as nat;
            lemma_run_goes_on(m, period, rest);
            lemma_same_course(m, m.run(period).0, rest);
            lemma_loop_never_stops(m, period, rest);
        }
    }
}

/// Register states in range are told apart by their index, which is below
/// `CYCLE_BOUND`.
proof fn lemma_index(first: RegisterState, second: RegisterState)
    requires
        first.wf(),
        second.wf(),
    ensures
        0 <= first.index() < CYCLE_BOUND,
        first.index() == second.index() ==> first == second,
{
    if first.index() == second.index() {
        if first.pc < second.pc {
            assert(first.index() < 512 * first.pc + 512 <= second.index());
        } else if first.pc > second.pc {
            assert(second.index() < 512 * second.pc + 512 <= first.index());
        }
        if first.carry < second.carry {
            assert(first.a + 16 * first.b < 256);
        } else if first.carry > second.carry {
            assert(second.a + 16 * second.b < 256);
        }
        if first.b < second.b {
            assert(first.a + 16 * first.b < 16 * first.b + 16 <= second.a + 16 * second.b);
        } else if first.b > second.b {
            assert(second.a + 16 * second.b < 16 * second.b + 16 <= first.a + 16 * first.b);
        }
    }
}

/// A machine whose registers hold after `late` cycles what they held after
/// `early` cycles, without having stopped, never stops.
proof fn lemma_repeat_never_stops(m: Machine, early: nat, late: nat, cycles: nat)
    requires
        m.wf(),
        early < late,
        !m.stops_within(late),
        m.run(early).0.register == m.run(late).0.register,
    ensures
        !m.stops_within(cycles),
{
    if m.stops_within(early) {
        lemma_run_settles(m, early, late);
    }
    let period = (late - early) as nat;
    let from = m.run(early).0;
    lemma_run_goes_on(m, early, period);
    lemma_run_goes_on(m, late, 0);
    assert(from.run(period) == m.run(late));
    assert(from.steers_like(m.run(late).0));
    if m.stops_within(cycles) {
        if cycles <= early {
            lemma_run_settles(m, cycles, early);
        } else {
            let rest = (cycles - early) as nat;
            lemma_run_goes_on(m, early, rest);
            lemma_loop_never_stops(from, period, rest);
        }
    }
}

/// A run that has not stopped after `CYCLE_BOUND` cycles never stops: by
/// then the registers have held the same values twice, and from there on
/// the machine repeats itself.
pub proof fn lemma_long_run_never_stops(m: Machine)
    requires
        m.wf(),
        !m.stops_within(CYCLE_BOUND as nat),
    ensures
        !m.terminates(),
{
    let bound = CYCLE_BOUND as nat;
    let f = |k: int| m.run(k as nat).0.register.index();
    assert forall|k: int| 0 <= k <= bound implies 0 <= #[trigger] f(k) < bound by {
        if m.stops_within(k as nat) {
            lemma_run_settles(m, k as nat, bound);
        }
        lemma_run_goes_on(m, k as nat, 0);
        lemma_index(m.run(k as nat).0.register, m.register);
    }
    lemma_pigeonhole(f, bound);
    let (i, j) = choose|i: int, j: int| 0 <= i < j <= bound && #[trigger] f(i) == #[trigger] f(j);
    let early = i as nat;
    let late = j as nat;
    if m.stops_within(early) {
        lemma_run_settles(m, early, bound);
    }
    if m.stops_within(late) {
        lemma_run_settles(m, late, bound);
    }
    lemma_run_goes_on(m, early, 0);
    lemma_run_goes_on(m, late, 0);
    lemma_index(m.run(early).0.register, m.run(late).0.register);
    assert forall|cycles: nat| !m.stops_within(cycles) by {
        lemma_repeat_never_stops(m, early, late, cycles);
    }
}

} // verus!
