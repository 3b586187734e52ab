//! Core of a CHIP-8 virtual machine: an instruction decoder and an execution
//! engine over a small flat memory, sixteen 8-bit registers, a monochrome
//! 64x32 framebuffer, a bounded call stack, two countdown timers and sixteen
//! input keys.
//!
//! The decoder is a pure, total function from 16-bit instruction words to a
//! closed set of instruction variants. The engine applies one decoded
//! instruction per call, advancing the program counter and mutating the
//! machine state; every step is specified against a mathematical transition
//! function over a view of the machine state.

pub mod engine;
pub mod isa;
pub mod laws;
pub mod machine;

pub use isa::Instr;
pub use isa::parse_opcode;
pub use machine::CHIP8_CALL_STACK_MAX_DEPTH;
pub use machine::CHIP8_FIRST_BYTE_ADDRESS;
pub use machine::CHIP8_MAX_ADDRESS;
pub use machine::CHIP8_MEMORY_SIZE;
pub use machine::CHIP8_NUMBER_KEYS;
pub use machine::CHIP8_NUMBER_REGISTERS;
pub use machine::CHIP8_SCREEN_HEIGHT;
pub use machine::CHIP8_SCREEN_WIDTH;
pub use machine::Chip8Error;
pub use machine::Emulator;
pub use machine::MachineView;
pub use machine::PixelStatus;
