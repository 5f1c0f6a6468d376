use crate::EmulatorErr;
use vstd::prelude::*;

verus! {

/// The most bytes a program image may have.
pub const ROM_CAPACITY: usize = 16;

/// What the port's two latches hold, as numbers.
pub struct PortState {
    /// The input latch.
    pub input: nat,
    /// The output latch.
    pub output: nat,
}

impl PortState {
    /// Both latches hold four-bit values.
    pub open spec fn wf(self) -> bool {
        self.input <= 15 && self.output <= 15
    }
}

/// The machine's only link to the outside: an input latch that the program
/// reads and an output latch that it writes.
pub struct Port {
    input: u8,
    output: u8,
}

impl View for Port {
    type V = PortState;

    closed spec fn view(&self) -> PortState {
        PortState { input: self.input as nat, output: self.output as nat }
    }
}

impl Port {
    pub fn new(input: u8, output: u8) -> (port: Self)
        ensures
            port@ == (PortState { input: input as nat, output: output as nat }),
    {
        Self { input, output }
    }

    pub fn input(&self) -> (value: u8)
        ensures
            value == self@.input,
    {
        self.input
    }

    pub fn set_output(&mut self, immediate: u8)
        ensures
            final(self)@ == (PortState { output: immediate as nat, ..old(self)@ }),
    {
        self.output = immediate
    }

    pub fn output(&self) -> (value: u8)
        ensures
            value == self@.output,
    {
        self.output
    }
}

/// The program image: at most `ROM_CAPACITY` bytes, one instruction each,
/// fixed once built.
pub struct Rom {
    memory_array: Vec<u8>,
}

impl View for Rom {
    type V = Seq<u8>;

    closed spec fn view(&self) -> Seq<u8> {
        self.memory_array@
    }
}

impl Rom {
    #[verifier::type_invariant]
    spec fn fits(self) -> bool {
        self.memory_array@.len() <= ROM_CAPACITY
    }

    /// Builds the image from assembled bytes, unless there are too many.
    pub fn new(memory_array: Vec<u8>) -> (res: Result<Rom, EmulatorErr>)
        ensures
            memory_array@.len() <= ROM_CAPACITY ==> (res matches Ok(rom) && rom@
                == memory_array@),
            memory_array@.len() > ROM_CAPACITY ==> (res matches Err(e) && e
                == EmulatorErr::MemoryOverflow),
    {
        if memory_array.len() > ROM_CAPACITY {
            Err(EmulatorErr::MemoryOverflow)
        } else {
            Ok(Self { memory_array })
        }
    }

    /// The byte in cell `pc`.
    pub fn read(&self, pc: u8) -> (data: u8)
        requires
            pc < self@.len(),
        ensures
            data == self@[pc as int],
    {
        self.memory_array[pc as usize]
    }

    /// The number of cells.
    pub fn size(&self) -> (n: u8)
        ensures
            n == self@.len(),
            n <= ROM_CAPACITY,
    {
        proof {
            use_type_invariant(self);
        }
        self.memory_array.len() as u8
    }
}

} // verus!
