//! The machine state owned by the execution engine: memory, registers,
//! program counter, call stack, framebuffer, key state and the two countdown
//! timers, together with its mathematical view and well-formedness invariant.

use vstd::prelude::*;
use vstd::pervasive::VecAdditionalExecFns;

verus! {

/// Size of the flat memory in bytes; addresses run 0x000..=0xFFF.
pub const CHIP8_MEMORY_SIZE: usize = 4096;

/// Address of the first loadable byte; programs are installed here and the
/// program counter starts here. Bytes below are reserved.
pub const CHIP8_FIRST_BYTE_ADDRESS: usize = 512;

/// Number of 8-bit general-purpose registers, indexed 0x0..=0xF.
pub const CHIP8_NUMBER_REGISTERS: usize = 16;

/// Framebuffer width in pixels.
pub const CHIP8_SCREEN_WIDTH: usize = 64;

/// Framebuffer height in pixels.
pub const CHIP8_SCREEN_HEIGHT: usize = 32;

/// Capacity of the call stack of subroutine return addresses.
pub const CHIP8_CALL_STACK_MAX_DEPTH: usize = 16;

/// Number of input keys, indexed 0x0..=0xF.
pub const CHIP8_NUMBER_KEYS: usize = 16;

/// Largest value the address register `I` may hold.
pub const CHIP8_MAX_ADDRESS: usize = 0xFFF;

/// State of one framebuffer pixel: unlit or lit.
#[derive(Debug, Clone, Copy, PartialEq, Eq, Structural)]
pub enum PixelStatus {
    Black,
    White,
}

/// The fatal conditions a step or a load can report. None is recovered from
/// by the engine itself; the driver decides whether to halt or restart.
#[derive(Debug, Clone, Copy, PartialEq, Eq, Structural)]
pub enum Chip8Error {
    /// The fetched word matches no recognized instruction pattern.
    UnknownOpcode(u16),
    /// The legacy machine-code call 0NNN, categorically unsupported.
    UnsupportedOpcode(u16),
    /// A return was executed with an empty call stack.
    StackUnderflow,
    /// A call was executed with the call stack at capacity.
    StackOverflow,
    /// A fetch, draw or block store/load would run past the end of memory.
    MemoryOutOfBounds,
    /// A draw would place part of a sprite outside the framebuffer.
    ScreenOutOfBounds,
    /// A key-skip instruction read a register holding no valid key index.
    KeyOutOfRange,
    /// A program longer than the memory past the load address.
    ProgramTooLarge,
}

/// Mathematical view of the machine state. Sequence lengths and field ranges
/// are constrained by [`MachineView::wf`], which every engine operation
/// preserves.
#[verifier::ext_equal]
pub struct MachineView {
    pub memory: Seq<u8>,
    pub program_counter: int,
    pub generic_registers: Seq<u8>,
    pub memory_register: int,
    pub screen: Seq<PixelStatus>,
    pub call_stack: Seq<int>,
    pub call_stack_depth: int,
    pub keys_pressed: Seq<bool>,
    pub system_clock: u8,
    pub sound_clock: u8,
}

impl MachineView {
    /// Well-formedness: fixed container sizes, the stack depth within
    /// capacity, stack entries that are valid instruction addresses, and the
    /// address register reduced modulo the addressable space.
    pub open spec fn wf(&self) -> bool {
        &&& self.memory.len() == CHIP8_MEMORY_SIZE
        &&& self.generic_registers.len() == CHIP8_NUMBER_REGISTERS
        &&& self.screen.len() == CHIP8_SCREEN_WIDTH * CHIP8_SCREEN_HEIGHT
        &&& self.call_stack.len() == CHIP8_CALL_STACK_MAX_DEPTH
        &&& 0 <= self.call_stack_depth <= CHIP8_CALL_STACK_MAX_DEPTH
        &&& self.keys_pressed.len() == CHIP8_NUMBER_KEYS
        &&& 0 <= self.program_counter
        &&& 0 <= self.memory_register <= CHIP8_MAX_ADDRESS
        &&& forall|j: int|
            0 <= j < self.call_stack_depth ==> 0 <= #[trigger] self.call_stack[j]
                < CHIP8_MEMORY_SIZE - 1
    }

    /// The state of a freshly constructed machine: everything zeroed, the
    /// screen unlit, no keys pressed, and the program counter at the first
    /// loadable byte.
    pub open spec fn initial() -> MachineView {
        MachineView {
            memory: Seq::new(CHIP8_MEMORY_SIZE as nat, |a: int| 0u8),
            program_counter: CHIP8_FIRST_BYTE_ADDRESS as int,
            generic_registers: Seq::new(CHIP8_NUMBER_REGISTERS as nat, |i: int| 0u8),
            memory_register: 0,
            screen: Seq::new(
                (CHIP8_SCREEN_WIDTH * CHIP8_SCREEN_HEIGHT) as nat,
                |p: int| PixelStatus::Black,
            ),
            call_stack: Seq::new(CHIP8_CALL_STACK_MAX_DEPTH as nat, |j: int| 0int),
            call_stack_depth: 0,
            keys_pressed: Seq::new(CHIP8_NUMBER_KEYS as nat, |k: int| false),
            system_clock: 0,
            sound_clock: 0,
        }
    }

    /// The state after installing `prog` at the load address and resetting
    /// the program counter there; all other components are untouched.
    pub open spec fn with_program(self, prog: Seq<u8>) -> MachineView {
        MachineView {
            memory: Seq::new(
                CHIP8_MEMORY_SIZE as nat,
                |a: int|
                    if CHIP8_FIRST_BYTE_ADDRESS <= a < CHIP8_FIRST_BYTE_ADDRESS + prog.len() {
                        prog[a - CHIP8_FIRST_BYTE_ADDRESS]
                    } else {
                        self.memory[a]
                    },
            ),
            program_counter: CHIP8_FIRST_BYTE_ADDRESS as int,
            ..self
        }
    }
}

/// The execution engine's machine state. Fields are public so that the
/// driver can render the framebuffer, feed key state and run the timer
/// decrement cadence; the engine's own mutations all go through `step`-style
/// methods whose contracts are stated over the [`MachineView`].
pub struct Emulator {
    pub memory: Vec<u8>,
    pub program_counter: usize,
    pub generic_registers: Vec<u8>,
    pub memory_register: usize,
    pub screen: Vec<PixelStatus>,
    pub call_stack: Vec<usize>,
    pub call_stack_depth: usize,
    pub keys_pressed: Vec<bool>,
    pub system_clock: u8,
    pub sound_clock: u8,
}

impl View for Emulator {
    type V = MachineView;

    open spec fn view(&self) -> MachineView {
        MachineView {
            memory: self.memory@,
            program_counter: self.program_counter as int,
            generic_registers: self.generic_registers@,
            memory_register: self.memory_register as int,
            screen: self.screen@,
            call_stack: self.call_stack@.map_values(|a: usize| a as int),
            call_stack_depth: self.call_stack_depth as int,
            keys_pressed: self.keys_pressed@,
            system_clock: self.system_clock,
            sound_clock: self.sound_clock,
        }
    }
}

/// A vector of `n` copies of `value`.
pub(crate) fn filled<T: Copy>(n: usize, value: T) -> (v: Vec<T>)
    ensures
        v@ == Seq::new(n as nat, |i: int| value),
{
    let mut v: Vec<T> = Vec::new();
    let mut i: usize = 0;
    while i < n
        invariant
            i <= n,
            v@.len() == i,
            forall|j: int| 0 <= j < i ==> v@[j] == value,
        decreases n - i,
    {
        v.push(value);
        i = i + 1;
    }
    assert(v@ =~= Seq::new(n as nat, |i: int| value));
    v
}

impl Emulator {
    /// Well-formedness of the machine state; established by `new` and
    /// preserved by every engine operation.
    pub open spec fn wf(&self) -> bool {
        self@.wf()
    }

    /// A machine in its initial state.
    pub fn new() -> (e: Emulator)
        ensures
            e.wf(),
            e@ == MachineView::initial(),
    {
        let e = Emulator {
            memory: filled(CHIP8_MEMORY_SIZE, 0u8),
            program_counter: CHIP8_FIRST_BYTE_ADDRESS,
            generic_registers: filled(CHIP8_NUMBER_REGISTERS, 0u8),
            memory_register: 0,
            screen: filled(CHIP8_SCREEN_WIDTH * CHIP8_SCREEN_HEIGHT, PixelStatus::Black),
            call_stack: filled(CHIP8_CALL_STACK_MAX_DEPTH, 0usize),
            call_stack_depth: 0,
            keys_pressed: filled(CHIP8_NUMBER_KEYS, false),
            system_clock: 0,
            sound_clock: 0,
        };
        assert(e@.call_stack =~= Seq::new(CHIP8_CALL_STACK_MAX_DEPTH as nat, |j: int| 0int));
        assert(e@ =~= MachineView::initial());
        e
    }

    /// Install a program at the load address and reset the program counter
    /// there. Fails exactly when the program is longer than the memory past
    /// the load address, leaving the state unchanged.
    pub fn load_program(&mut self, program: &[u8]) -> (r: Result<(), Chip8Error>)
        requires
            old(self).wf(),
        ensures
            final(self).wf(),
            program@.len() + CHIP8_FIRST_BYTE_ADDRESS <= CHIP8_MEMORY_SIZE ==> r is Ok
                && final(self)@ == old(self)@.with_program(program@),
            program@.len() + CHIP8_FIRST_BYTE_ADDRESS > CHIP8_MEMORY_SIZE ==> (r matches Err(e)
                && e == Chip8Error::ProgramTooLarge && final(self)@ == old(self)@),
    {
        if program.len() > CHIP8_MEMORY_SIZE - CHIP8_FIRST_BYTE_ADDRESS {
            return Err(Chip8Error::ProgramTooLarge);
        }
        let ghost pre = self@;
        let mut i: usize = 0;
        while i < program.len()
            invariant
                pre.wf(),
                i <= program@.len(),
                program@.len() + CHIP8_FIRST_BYTE_ADDRESS <= CHIP8_MEMORY_SIZE,
                self@.memory.len() == CHIP8_MEMORY_SIZE,
                forall|a: int|
                    0 <= a < CHIP8_MEMORY_SIZE ==> #[trigger] self@.memory[a] == (
                    if CHIP8_FIRST_BYTE_ADDRESS <= a < CHIP8_FIRST_BYTE_ADDRESS + i {
                        program@[a - CHIP8_FIRST_BYTE_ADDRESS]
                    } else {
                        pre.memory[a]
                    }),
                self@ == (MachineView { memory: self@.memory, ..pre }),
            decreases program@.len() - i,
        {
            self.memory.set(CHIP8_FIRST_BYTE_ADDRESS + i, program[i]);
            i = i + 1;
        }
        self.program_counter = CHIP8_FIRST_BYTE_ADDRESS;
        assert(self@ =~= pre.with_program(program@));
        Ok(())
    }

    /// Record a key press or release, for the driver's input-event
    /// translation. Key indices run 0x0..=0xF.
    pub fn input_key(&mut self, key: u8, pressed: bool)
        requires
            old(self).wf(),
            key < 16,
        ensures
            final(self).wf(),
            final(self)@ == (MachineView {
                keys_pressed: old(self)@.keys_pressed.update(key as int, pressed),
                ..old(self)@
            }),
    {
        self.keys_pressed.set(key as usize, pressed);
        assert(self@ =~= (MachineView {
            keys_pressed: old(self)@.keys_pressed.update(key as int, pressed),
            ..old(self)@
        }));
    }
}

} // verus!
