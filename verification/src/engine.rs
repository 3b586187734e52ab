//! The execution engine: one fetch-decode-execute-advance cycle per call.
//!
//! The semantics of every instruction is stated once, as the spec transition
//! function [`exec_inst_spec`] over the [`MachineView`]; the executable engine
//! is verified to follow it exactly. A step either succeeds and transforms
//! the state per the decoded instruction, or fails with a [`Chip8Error`] and
//! leaves the state untouched.
//!
//! Sprite drawing addresses pixels inside the 64x32 framebuffer only: a draw
//! whose `n`-row, 8-column sprite rectangle would cross the right or bottom
//! edge is rejected as [`Chip8Error::ScreenOutOfBounds`] before any pixel is
//! toggled (the screen does not wrap).

use vstd::prelude::*;
use vstd::pervasive::VecAdditionalExecFns;
use vstd::arithmetic::div_mod::lemma_fundamental_div_mod;
use vstd::arithmetic::div_mod::lemma_fundamental_div_mod_converse;

use crate::isa::Instr;
use crate::isa::instr_wf;
use crate::isa::lemma_decode_fields_in_range;
use crate::isa::parse_opcode;
use crate::isa::spec_decode;
use crate::machine::CHIP8_CALL_STACK_MAX_DEPTH;
use crate::machine::CHIP8_MAX_ADDRESS;
use crate::machine::CHIP8_MEMORY_SIZE;
use crate::machine::CHIP8_SCREEN_HEIGHT;
use crate::machine::CHIP8_SCREEN_WIDTH;
use crate::machine::Chip8Error;
use crate::machine::Emulator;
use crate::machine::MachineView;
use crate::machine::PixelStatus;

verus! {

/// The state with the program counter moved by `d` bytes.
pub open spec fn advanced(s: MachineView, d: int) -> MachineView {
    MachineView { program_counter: s.program_counter + d, ..s }
}

/// The state with register `x` set to `v`.
pub open spec fn with_reg(s: MachineView, x: u8, v: u8) -> MachineView {
    MachineView { generic_registers: s.generic_registers.update(x as int, v), ..s }
}

/// The other pixel state: lit becomes unlit and unlit becomes lit.
pub open spec fn flip(p: PixelStatus) -> PixelStatus {
    if p is White {
        PixelStatus::Black
    } else {
        PixelStatus::White
    }
}

/// Whether sprite-row byte `byte` has its bit for column `col` set; the most
/// significant bit is the leftmost column.
pub open spec fn sprite_bit(byte: u8, col: int) -> bool {
    (byte >> ((7 - col) as u8)) & 0x01u8 == 1u8
}

/// Whether a draw of the `n`-row sprite at `memory[i..]` with origin
/// `(px, py)` toggles the framebuffer cell at row-major index `p`.
pub open spec fn draw_toggles(mem: Seq<u8>, i: int, n: int, px: int, py: int, p: int) -> bool {
    let row = p / (CHIP8_SCREEN_WIDTH as int);
    let col = p % (CHIP8_SCREEN_WIDTH as int);
    &&& py <= row < py + n
    &&& px <= col < px + 8
    &&& sprite_bit(mem[i + (row - py)], col - px)
}

/// The framebuffer after an XOR-draw: every toggled cell is flipped, every
/// other cell is unchanged.
pub open spec fn draw_screen(
    screen: Seq<PixelStatus>,
    mem: Seq<u8>,
    i: int,
    n: int,
    px: int,
    py: int,
) -> Seq<PixelStatus> {
    Seq::new(
        screen.len(),
        |p: int|
            if draw_toggles(mem, i, n, px, py, p) {
                flip(screen[p])
            } else {
                screen[p]
            },
    )
}

/// Whether an XOR-draw turns some lit cell off, the collision that DXYN
/// reports in `VF`.
pub open spec fn draw_collides(
    screen: Seq<PixelStatus>,
    mem: Seq<u8>,
    i: int,
    n: int,
    px: int,
    py: int,
) -> bool {
    exists|p: int|
        0 <= p < screen.len() && draw_toggles(mem, i, n, px, py, p) && screen[p] is White
}

/// Result of DXYN: toggle the sprite's set bits into the framebuffer and
/// report in `VF` whether any lit cell was turned off. Fails, with the state
/// unchanged, if the sprite rows run past the end of memory or the sprite
/// rectangle crosses the framebuffer edge.
pub open spec fn draw_result(s: MachineView, x: u8, y: u8, n: u8) -> Result<
    MachineView,
    Chip8Error,
> {
    let px = s.generic_registers[x as int] as int;
    let py = s.generic_registers[y as int] as int;
    if s.memory_register + n > CHIP8_MEMORY_SIZE {
        Err(Chip8Error::MemoryOutOfBounds)
    } else if n > 0 && (px + 8 > CHIP8_SCREEN_WIDTH || py + n > CHIP8_SCREEN_HEIGHT) {
        Err(Chip8Error::ScreenOutOfBounds)
    } else {
        let toggled = draw_screen(s.screen, s.memory, s.memory_register, n as int, px, py);
        let hit = draw_collides(s.screen, s.memory, s.memory_register, n as int, px, py);
        Ok(
            MachineView {
                screen: toggled,
                generic_registers: s.generic_registers.update(15int, if hit { 1u8 } else { 0u8 }),
                program_counter: s.program_counter + 2,
                ..s
            },
        )
    }
}

/// Result of FX55: copy `V0..=Vx` into `memory[I..]` in register-index
/// order. Fails, with the state unchanged, if the range runs past the end of
/// memory.
pub open spec fn store_result(s: MachineView, x: u8) -> Result<MachineView, Chip8Error> {
    if s.memory_register + x >= CHIP8_MEMORY_SIZE {
        Err(Chip8Error::MemoryOutOfBounds)
    } else {
        Ok(
            MachineView {
                memory: Seq::new(
                    CHIP8_MEMORY_SIZE as nat,
                    |a: int|
                        if s.memory_register <= a <= s.memory_register + x {
                            s.generic_registers[a - s.memory_register]
                        } else {
                            s.memory[a]
                        },
                ),
                program_counter: s.program_counter + 2,
                ..s
            },
        )
    }
}

/// Result of FX65: copy `memory[I..]` into `V0..=Vx` in register-index
/// order. Fails, with the state unchanged, if the range runs past the end of
/// memory.
pub open spec fn load_result(s: MachineView, x: u8) -> Result<MachineView, Chip8Error> {
    if s.memory_register + x >= CHIP8_MEMORY_SIZE {
        Err(Chip8Error::MemoryOutOfBounds)
    } else {
        Ok(
            MachineView {
                generic_registers: Seq::new(
                    16,
                    |j: int|
                        if 0 <= j <= x {
                            s.memory[s.memory_register + j]
                        } else {
                            s.generic_registers[j]
                        },
                ),
                program_counter: s.program_counter + 2,
                ..s
            },
        )
    }
}

/// The transition of one decoded instruction on a well-formed state. `rnd`
/// is the byte the random source produced; only CXNN reads it. Every
/// successful transition already includes the uniform advance of the program
/// counter: a plain instruction leaves it two bytes further, a taken skip
/// four, a jump or call exactly at its target.
pub open spec fn exec_inst_spec(s: MachineView, inst: Instr, rnd: u8) -> Result<
    MachineView,
    Chip8Error,
> {
    match inst {
        Instr::ClearScreen => Ok(
            advanced(
                MachineView {
                    screen: Seq::new(
                        (CHIP8_SCREEN_WIDTH * CHIP8_SCREEN_HEIGHT) as nat,
                        |p: int| PixelStatus::Black,
                    ),
                    ..s
                },
                2,
            ),
        ),
        Instr::Return => {
            if s.call_stack_depth <= 0 {
                Err(Chip8Error::StackUnderflow)
            } else {
                Ok(
                    MachineView {
                        program_counter: s.call_stack[s.call_stack_depth - 1] + 2,
                        call_stack_depth: s.call_stack_depth - 1,
                        ..s
                    },
                )
            }
        },
        Instr::MachineRoutine(nnn) => Err(Chip8Error::UnsupportedOpcode(nnn)),
        Instr::Jump(nnn) => Ok(MachineView { program_counter: nnn as int, ..s }),
        Instr::Call(nnn) => {
            if s.call_stack_depth >= CHIP8_CALL_STACK_MAX_DEPTH {
                Err(Chip8Error::StackOverflow)
            } else {
                Ok(
                    MachineView {
                        call_stack: s.call_stack.update(s.call_stack_depth, s.program_counter),
                        call_stack_depth: s.call_stack_depth + 1,
                        program_counter: nnn as int,
                        ..s
                    },
                )
            }
        },
        Instr::SkipIfEqImm(x, nn) => Ok(
            advanced(
                s,
                if s.generic_registers[x as int] == nn {
                    4
                } else {
                    2
                },
            ),
        ),
        Instr::SkipIfNeImm(x, nn) => Ok(
            advanced(
                s,
                if s.generic_registers[x as int] != nn {
                    4
                } else {
                    2
                },
            ),
        ),
        Instr::SkipIfEqReg(x, y) => Ok(
            advanced(
                s,
                if s.generic_registers[x as int] == s.generic_registers[y as int] {
                    4
                } else {
                    2
                },
            ),
        ),
        Instr::SetImm(x, nn) => Ok(advanced(with_reg(s, x, nn), 2)),
        Instr::AddImm(x, nn) => Ok(
            advanced(with_reg(s, x, s.generic_registers[x as int].wrapping_add(nn)), 2),
        ),
        Instr::Copy(x, y) => Ok(advanced(with_reg(s, x, s.generic_registers[y as int]), 2)),
        Instr::Or(x, y) => Ok(
            advanced(
                with_reg(s, x, s.generic_registers[x as int] | s.generic_registers[y as int]),
                2,
            ),
        ),
        Instr::And(x, y) => Ok(
            advanced(
                with_reg(s, x, s.generic_registers[x as int] & s.generic_registers[y as int]),
                2,
            ),
        ),
        Instr::Xor(x, y) => Ok(
            advanced(
                with_reg(s, x, s.generic_registers[x as int] ^ s.generic_registers[y as int]),
                2,
            ),
        ),
        Instr::AddReg(x, y) => {
            let vx = s.generic_registers[x as int];
            let vy = s.generic_registers[y as int];
            let carry: u8 = if vx + vy > 255 {
                1
            } else {
                0
            };
            Ok(advanced(with_reg(with_reg(s, x, vx.wrapping_add(vy)), 15, carry), 2))
        },
        Instr::SubReg(x, y) => {
            let vx = s.generic_registers[x as int];
            let vy = s.generic_registers[y as int];
            let no_borrow: u8 = if vx < vy {
                0
            } else {
                1
            };
            Ok(advanced(with_reg(with_reg(s, x, vx.wrapping_sub(vy)), 15, no_borrow), 2))
        },
        Instr::ShiftRight(x, _y) => {
            let s1 = with_reg(s, 15, s.generic_registers[x as int] & 0x01u8);
            let s2 = with_reg(s1, x, s1.generic_registers[x as int] >> 1u8);
            Ok(advanced(s2, 2))
        },
        Instr::SubFrom(x, y) => {
            let vx = s.generic_registers[x as int];
            let vy = s.generic_registers[y as int];
            let no_borrow: u8 = if vy < vx {
                0
            } else {
                1
            };
            Ok(advanced(with_reg(with_reg(s, x, vy.wrapping_sub(vx)), 15, no_borrow), 2))
        },
        Instr::ShiftLeft(x, _y) => {
            let s1 = with_reg(s, 15, (s.generic_registers[x as int] & 0x80u8) >> 7u8);
            let s2 = with_reg(s1, x, s1.generic_registers[x as int] << 1u8);
            Ok(advanced(s2, 2))
        },
        Instr::SkipIfNeReg(x, y) => Ok(
            advanced(
                s,
                if s.generic_registers[x as int] != s.generic_registers[y as int] {
                    4
                } else {
                    2
                },
            ),
        ),
        Instr::SetIndex(nnn) => Ok(
            advanced(MachineView { memory_register: nnn as int, ..s }, 2),
        ),
        Instr::Random(x, nn) => Ok(advanced(with_reg(s, x, rnd & nn), 2)),
        Instr::Draw(x, y, n) => draw_result(s, x, y, n),
        Instr::SkipIfKey(x) => {
            let k = s.generic_registers[x as int];
            if k >= 16 {
                Err(Chip8Error::KeyOutOfRange)
            } else {
                Ok(
                    advanced(
                        s,
                        if s.keys_pressed[k as int] {
                            4
                        } else {
                            2
                        },
                    ),
                )
            }
        },
        Instr::SkipIfNotKey(x) => {
            let k = s.generic_registers[x as int];
            if k >= 16 {
                Err(Chip8Error::KeyOutOfRange)
            } else {
                Ok(
                    advanced(
                        s,
                        if !s.keys_pressed[k as int] {
                            4
                        } else {
                            2
                        },
                    ),
                )
            }
        },
        Instr::ReadTimer(x) => Ok(advanced(with_reg(s, x, s.system_clock), 2)),
        Instr::SetTimer(x) => Ok(
            advanced(MachineView { system_clock: s.generic_registers[x as int], ..s }, 2),
        ),
        Instr::SetSound(x) => Ok(
            advanced(MachineView { sound_clock: s.generic_registers[x as int], ..s }, 2),
        ),
        Instr::AddIndex(x) => {
            let sum = s.memory_register + s.generic_registers[x as int];
            if sum > CHIP8_MAX_ADDRESS {
                Ok(
                    advanced(
                        MachineView {
                            memory_register: sum - CHIP8_MAX_ADDRESS,
                            generic_registers: s.generic_registers.update(15int, 1u8),
                            ..s
                        },
                        2,
                    ),
                )
            } else {
                Ok(
                    advanced(
                        MachineView {
                            memory_register: sum,
                            generic_registers: s.generic_registers.update(15int, 0u8),
                            ..s
                        },
                        2,
                    ),
                )
            }
        },
        Instr::StoreRegisters(x) => store_result(s, x),
        Instr::LoadRegisters(x) => load_result(s, x),
    }
}

/// The 16-bit instruction word at the program counter, big-endian.
pub open spec fn fetch_word(s: MachineView) -> u16 {
    ((s.memory[s.program_counter] as u16) << 8u16) | (s.memory[s.program_counter + 1] as u16)
}

/// One full engine step: fetch the word at the program counter, decode it,
/// and execute it. Fails with `MemoryOutOfBounds` if the program counter does
/// not address two readable bytes, and with `UnknownOpcode` if the word
/// decodes to no instruction.
pub open spec fn step_spec(s: MachineView, rnd: u8) -> Result<MachineView, Chip8Error> {
    if s.program_counter + 1 >= CHIP8_MEMORY_SIZE {
        Err(Chip8Error::MemoryOutOfBounds)
    } else {
        let w = fetch_word(s);
        match spec_decode(w) {
            Option::None => Err(Chip8Error::UnknownOpcode(w)),
            Option::Some(inst) => exec_inst_spec(s, inst, rnd),
        }
    }
}

/// How an executed operation relates pre-state, post-state and returned
/// `Result` to the specified transition `res`: on success the post-state is
/// exactly the specified one, on failure the specified error is returned and
/// the state is unchanged.
pub open spec fn result_outcome(
    pre: MachineView,
    post: MachineView,
    res: Result<MachineView, Chip8Error>,
    r: Result<(), Chip8Error>,
) -> bool {
    match res {
        Ok(s) => r is Ok && post == s,
        Err(e) => r matches Err(e2) && e2 == e && post == pre,
    }
}

/// [`result_outcome`] for one whole step.
pub open spec fn step_outcome(
    pre: MachineView,
    post: MachineView,
    rnd: u8,
    r: Result<(), Chip8Error>,
) -> bool {
    result_outcome(pre, post, step_spec(pre, rnd), r)
}

/// Relies on `rand::random::<u8>`: one byte from the thread-local uniform
/// generator. Nothing is promised of the value; callers state what holds of
/// every byte.
#[verifier::external_body]
fn random_byte() -> u8 {
    rand::random::<u8>()
}

impl Emulator {
    /// Perform one fetch-decode-execute-advance cycle, drawing the byte for
    /// CXNN from the machine's random source. The post-state and result
    /// follow [`step_spec`] for some random byte.
    pub fn process_next_instruction(&mut self) -> (r: Result<(), Chip8Error>)
        requires
            old(self).wf(),
        ensures
            final(self).wf(),
            exists|rnd: u8| #[trigger] step_outcome(old(self)@, final(self)@, rnd, r),
    {
        let rnd = random_byte();
        let r = self.process_next_instruction_with_random(rnd);
        assert(step_outcome(old(self)@, self@, rnd, r));
        r
    }

    /// One fetch-decode-execute-advance cycle with the random byte supplied
    /// by the caller: the fully deterministic engine step, verified to follow
    /// [`step_spec`] exactly.
    pub fn process_next_instruction_with_random(&mut self, rnd: u8) -> (r: Result<
        (),
        Chip8Error,
    >)
        requires
            old(self).wf(),
        ensures
            final(self).wf(),
            step_outcome(old(self)@, final(self)@, rnd, r),
    {
        if self.program_counter >= CHIP8_MEMORY_SIZE - 1 {
            return Err(Chip8Error::MemoryOutOfBounds);
        }
        let hi = self.memory[self.program_counter];
        let lo = self.memory[self.program_counter + 1];
        let w: u16 = ((hi as u16) << 8u16) | (lo as u16);
        match parse_opcode(w) {
            Option::None => Err(Chip8Error::UnknownOpcode(w)),
            Option::Some(inst) => {
                proof {
                    lemma_decode_fields_in_range(w);
                }
                self.execute(inst, rnd)
            },
        }
    }

    /// Apply one decoded instruction, including its program-counter update.
    fn execute(&mut self, inst: Instr, rnd: u8) -> (r: Result<(), Chip8Error>)
        requires
            old(self).wf(),
            instr_wf(inst),
            old(self)@.program_counter + 1 < CHIP8_MEMORY_SIZE,
        ensures
            final(self).wf(),
            result_outcome(old(self)@, final(self)@, exec_inst_spec(old(self)@, inst, rnd), r),
    {
        match inst {
            Instr::ClearScreen => {
                self.screen = crate::machine::filled(
                    CHIP8_SCREEN_WIDTH * CHIP8_SCREEN_HEIGHT,
                    PixelStatus::Black,
                );
                self.program_counter = self.program_counter + 2;
                Ok(())
            },
            Instr::Return => {
                if self.call_stack_depth == 0 {
                    return Err(Chip8Error::StackUnderflow);
                }
                self.call_stack_depth = self.call_stack_depth - 1;
                self.program_counter = self.call_stack[self.call_stack_depth] + 2;
                Ok(())
            },
            Instr::MachineRoutine(nnn) => Err(Chip8Error::UnsupportedOpcode(nnn)),
            Instr::Jump(nnn) => {
                self.program_counter = nnn as usize;
                Ok(())
            },
            Instr::Call(nnn) => {
                if self.call_stack_depth >= CHIP8_CALL_STACK_MAX_DEPTH {
                    return Err(Chip8Error::StackOverflow);
                }
                self.call_stack.set(self.call_stack_depth, self.program_counter);
                self.call_stack_depth = self.call_stack_depth + 1;
                self.program_counter = nnn as usize;
                assert(self@.call_stack =~= old(self)@.call_stack.update(
                    old(self)@.call_stack_depth,
                    old(self)@.program_counter,
                ));
                Ok(())
            },
            Instr::SkipIfEqImm(x, nn) => {
                if self.generic_registers[x as usize] == nn {
                    self.program_counter = self.program_counter + 4;
                } else {
                    self.program_counter = self.program_counter + 2;
                }
                Ok(())
            },
            Instr::SkipIfNeImm(x, nn) => {
                if self.generic_registers[x as usize] != nn {
                    self.program_counter = self.program_counter + 4;
                } else {
                    self.program_counter = self.program_counter + 2;
                }
                Ok(())
            },
            Instr::SkipIfEqReg(x, y) => {
                if self.generic_registers[x as usize] == self.generic_registers[y as usize] {
                    self.program_counter = self.program_counter + 4;
                } else {
                    self.program_counter = self.program_counter + 2;
                }
                Ok(())
            },
            Instr::SetImm(x, nn) => {
                self.generic_registers.set(x as usize, nn);
                self.program_counter = self.program_counter + 2;
                Ok(())
            },
            Instr::AddImm(x, nn) => {
                let vx = self.generic_registers[x as usize];
                self.generic_registers.set(x as usize, vx.wrapping_add(nn));
                self.program_counter = self.program_counter + 2;
                Ok(())
            },
            Instr::Copy(x, y) => {
                let vy = self.generic_registers[y as usize];
                self.generic_registers.set(x as usize, vy);
                self.program_counter = self.program_counter + 2;
                Ok(())
            },
            Instr::Or(x, y) => {
                let vx = self.generic_registers[x as usize];
                let vy = self.generic_registers[y as usize];
                self.generic_registers.set(x as usize, vx | vy);
                self.program_counter = self.program_counter + 2;
                Ok(())
            },
            Instr::And(x, y) => {
                let vx = self.generic_registers[x as usize];
                let vy = self.generic_registers[y as usize];
                self.generic_registers.set(x as usize, vx & vy);
                self.program_counter = self.program_counter + 2;
                Ok(())
            },
            Instr::Xor(x, y) => {
                let vx = self.generic_registers[x as usize];
                let vy = self.generic_registers[y as usize];
                self.generic_registers.set(x as usize, vx ^ vy);
                self.program_counter = self.program_counter + 2;
                Ok(())
            },
            Instr::AddReg(x, y) => {
                let vx = self.generic_registers[x as usize];
                let vy = self.generic_registers[y as usize];
                let carry: u8 = if (vx as u16) + (vy as u16) > 255 {
                    1
                } else {
                    0
                };
                self.generic_registers.set(x as usize, vx.wrapping_add(vy));
                self.generic_registers.set(15, carry);
                self.program_counter = self.program_counter + 2;
                Ok(())
            },
            Instr::SubReg(x, y) => {
                let vx = self.generic_registers[x as usize];
                let vy = self.generic_registers[y as usize];
                let no_borrow: u8 = if vx < vy {
                    0
                } else {
                    1
                };
                self.generic_registers.set(x as usize, vx.wrapping_sub(vy));
                self.generic_registers.set(15, no_borrow);
                self.program_counter = self.program_counter + 2;
                Ok(())
            },
            Instr::ShiftRight(x, _) => {
                let vx = self.generic_registers[x as usize];
                self.generic_registers.set(15, vx & 0x01u8);
                let vx2 = self.generic_registers[x as usize];
                self.generic_registers.set(x as usize, vx2 >> 1u8);
                self.program_counter = self.program_counter + 2;
                Ok(())
            },
            Instr::SubFrom(x, y) => {
                let vx = self.generic_registers[x as usize];
                let vy = self.generic_registers[y as usize];
                let no_borrow: u8 = if vy < vx {
                    0
                } else {
                    1
                };
                self.generic_registers.set(x as usize, vy.wrapping_sub(vx));
                self.generic_registers.set(15, no_borrow);
                self.program_counter = self.program_counter + 2;
                Ok(())
            },
            Instr::ShiftLeft(x, _) => {
                let vx = self.generic_registers[x as usize];
                self.generic_registers.set(15, (vx & 0x80u8) >> 7u8);
                let vx2 = self.generic_registers[x as usize];
                self.generic_registers.set(x as usize, vx2 << 1u8);
                self.program_counter = self.program_counter + 2;
                Ok(())
            },
            Instr::SkipIfNeReg(x, y) => {
                if self.generic_registers[x as usize] != self.generic_registers[y as usize] {
                    self.program_counter = self.program_counter + 4;
                } else {
                    self.program_counter = self.program_counter + 2;
                }
                Ok(())
            },
            Instr::SetIndex(nnn) => {
                self.memory_register = nnn as usize;
                self.program_counter = self.program_counter + 2;
                Ok(())
            },
            Instr::Random(x, nn) => {
                self.generic_registers.set(x as usize, rnd & nn);
                self.program_counter = self.program_counter + 2;
                Ok(())
            },
            Instr::Draw(x, y, n) => self.draw_sprite(x, y, n),
            Instr::SkipIfKey(x) => {
                let k = self.generic_registers[x as usize];
                if k >= 16 {
                    return Err(Chip8Error::KeyOutOfRange);
                }
                if self.keys_pressed[k as usize] {
                    self.program_counter = self.program_counter + 4;
                } else {
                    self.program_counter = self.program_counter + 2;
                }
                Ok(())
            },
            Instr::SkipIfNotKey(x) => {
                let k = self.generic_registers[x as usize];
                if k >= 16 {
                    return Err(Chip8Error::KeyOutOfRange);
                }
                if !self.keys_pressed[k as usize] {
                    self.program_counter = self.program_counter + 4;
                } else {
                    self.program_counter = self.program_counter + 2;
                }
                Ok(())
            },
            Instr::ReadTimer(x) => {
                let t = self.system_clock;
                self.generic_registers.set(x as usize, t);
                self.program_counter = self.program_counter + 2;
                Ok(())
            },
            Instr::SetTimer(x) => {
                self.system_clock = self.generic_registers[x as usize];
                self.program_counter = self.program_counter + 2;
                Ok(())
            },
            Instr::SetSound(x) => {
                self.sound_clock = self.generic_registers[x as usize];
                self.program_counter = self.program_counter + 2;
                Ok(())
            },
            Instr::AddIndex(x) => {
                let vx = self.generic_registers[x as usize];
                self.memory_register = self.memory_register + vx as usize;
                if self.memory_register > CHIP8_MAX_ADDRESS {
                    self.memory_register = self.memory_register - CHIP8_MAX_ADDRESS;
                    self.generic_registers.set(15, 1);
                } else {
                    self.generic_registers.set(15, 0);
                }
                self.program_counter = self.program_counter + 2;
                Ok(())
            },
            Instr::StoreRegisters(x) => self.store_registers(x),
            Instr::LoadRegisters(x) => self.load_registers(x),
        }
    }

    /// XOR-draw the `n`-row sprite at `memory[I..]` at `(Vx, Vy)`; `VF`
    /// reports whether any lit pixel was turned off.
    fn draw_sprite(&mut self, x: u8, y: u8, n: u8) -> (r: Result<(), Chip8Error>)
        requires
            old(self).wf(),
            x < 16,
            y < 16,
            n < 16,
            old(self)@.program_counter + 1 < CHIP8_MEMORY_SIZE,
        ensures
            final(self).wf(),
            result_outcome(old(self)@, final(self)@, draw_result(old(self)@, x, y, n), r),
    {
        if self.memory_register + (n as usize) > CHIP8_MEMORY_SIZE {
            return Err(Chip8Error::MemoryOutOfBounds);
        }
        let pos_x = self.generic_registers[x as usize] as usize;
        let pos_y = self.generic_registers[y as usize] as usize;
        if n > 0 && (pos_x + 8 > CHIP8_SCREEN_WIDTH || pos_y + (n as usize) > CHIP8_SCREEN_HEIGHT) {
            return Err(Chip8Error::ScreenOutOfBounds);
        }
        let ghost pre = self@;
        let ghost px = pos_x as int;
        let ghost py = pos_y as int;
        let ghost nn = n as int;
        let ghost mem = pre.memory;
        let ghost base = pre.memory_register;
        let mut any_off = false;
        let mut row: usize = 0;
        while row < n as usize
            invariant
                pre.wf(),
                row <= nn,
                nn == n as int,
                nn < 16,
                x < 16,
                y < 16,
                pos_x as int == px,
                pos_y as int == py,
                px == pre.generic_registers[x as int] as int,
                py == pre.generic_registers[y as int] as int,
                mem == pre.memory,
                base == pre.memory_register,
                base + nn <= CHIP8_MEMORY_SIZE,
                nn > 0 ==> px + 8 <= CHIP8_SCREEN_WIDTH && py + nn <= CHIP8_SCREEN_HEIGHT,
                self@.screen.len() == pre.screen.len(),
                forall|q: int|
                    0 <= q < pre.screen.len() ==> #[trigger] self@.screen[q] == (
                    if draw_toggles_before(mem, base, nn, px, py, q, row as int, 0) {
                        flip(pre.screen[q])
                    } else {
                        pre.screen[q]
                    }),
                any_off == exists|q: int|
                    0 <= q < pre.screen.len() && #[trigger] draw_toggles_before(
                        mem,
                        base,
                        nn,
                        px,
                        py,
                        q,
                        row as int,
                        0,
                    ) && pre.screen[q] is White,
                self@ == (MachineView { screen: self@.screen, ..pre }),
            decreases nn - row,
        {
            let byte = self.memory[self.memory_register + row];
            let mut col: usize = 0;
            while col < 8
                invariant
                    pre.wf(),
                    row < nn,
                    col <= 8,
                    nn == n as int,
                    nn < 16,
                    x < 16,
                    y < 16,
                    pos_x as int == px,
                    pos_y as int == py,
                    px == pre.generic_registers[x as int] as int,
                    py == pre.generic_registers[y as int] as int,
                    mem == pre.memory,
                    base == pre.memory_register,
                    base + nn <= CHIP8_MEMORY_SIZE,
                    px + 8 <= CHIP8_SCREEN_WIDTH && py + nn <= CHIP8_SCREEN_HEIGHT,
                    byte == mem[base + row],
                    self@.screen.len() == pre.screen.len(),
                    forall|q: int|
                        0 <= q < pre.screen.len() ==> #[trigger] self@.screen[q] == (
                        if draw_toggles_before(mem, base, nn, px, py, q, row as int, col as int) {
                            flip(pre.screen[q])
                        } else {
                            pre.screen[q]
                        }),
                    any_off == exists|q: int|
                        0 <= q < pre.screen.len() && #[trigger] draw_toggles_before(
                            mem,
                            base,
                            nn,
                            px,
                            py,
                            q,
                            row as int,
                            col as int,
                        ) && pre.screen[q] is White,
                    self@ == (MachineView { screen: self@.screen, ..pre }),
                decreases 8 - col,
            {
                let sh: u8 = (7 - col) as u8;
                let ghost p = (py + row) * (CHIP8_SCREEN_WIDTH as int) + px + col;
                proof {
                    lemma_pixel_row_col(py + row, px + col as int);
                    assert(0 <= p < pre.screen.len());
                }
                if (byte >> sh) & 0x01u8 == 1u8 {
                    let idx = (pos_y + row) * CHIP8_SCREEN_WIDTH + pos_x + col;
                    proof {
                        assert(idx == p);
                        assert(sprite_bit(mem[base + row], col as int));
                        assert(draw_toggles(mem, base, nn, px, py, p));
                        lemma_toggle_step(mem, base, nn, px, py, row as int, col as int, p);
                    }
                    let cur = self.screen[idx];
                    proof {
                        assert(cur == pre.screen[p]);
                    }
                    match cur {
                        PixelStatus::Black => {
                            self.screen.set(idx, PixelStatus::White);
                        },
                        PixelStatus::White => {
                            self.screen.set(idx, PixelStatus::Black);
                            any_off = true;
                        },
                    }
                    proof {
                        lemma_white_exists_step(
                            pre.screen,
                            mem,
                            base,
                            nn,
                            px,
                            py,
                            row as int,
                            col as int,
                            p,
                        );
                    }
                } else {
                    proof {
                        assert(!sprite_bit(mem[base + row], col as int));
                        lemma_no_toggle_step(mem, base, nn, px, py, row as int, col as int, p);
                        lemma_white_exists_unchanged(
                            pre.screen,
                            mem,
                            base,
                            nn,
                            px,
                            py,
                            row as int,
                            col as int + 1,
                            row as int,
                            col as int,
                        );
                    }
                }
                col = col + 1;
            }
            proof {
                lemma_row_rollover(mem, base, nn, px, py, row as int);
                lemma_white_exists_unchanged(
                    pre.screen,
                    mem,
                    base,
                    nn,
                    px,
                    py,
                    row as int + 1,
                    0,
                    row as int,
                    8,
                );
            }
            row = row + 1;
        }
        proof {
            lemma_done(mem, base, nn, px, py);
            if any_off {
                let qw = choose|q: int|
                    0 <= q < pre.screen.len() && #[trigger] draw_toggles_before(
                        mem,
                        base,
                        nn,
                        px,
                        py,
                        q,
                        nn,
                        0,
                    ) && pre.screen[q] is White;
                assert(draw_toggles(mem, base, nn, px, py, qw));
                assert(draw_collides(pre.screen, mem, base, nn, px, py));
            }
            if draw_collides(pre.screen, mem, base, nn, px, py) {
                let qw = choose|q: int|
                    0 <= q < pre.screen.len() && #[trigger] draw_toggles(
                        mem,
                        base,
                        nn,
                        px,
                        py,
                        q,
                    ) && pre.screen[q] is White;
                assert(draw_toggles_before(mem, base, nn, px, py, qw, nn, 0));
                assert(any_off);
            }
        }
        self.generic_registers.set(
            15,
            if any_off {
                1
            } else {
                0
            },
        );
        self.program_counter = self.program_counter + 2;
        assert(self@.screen =~= draw_screen(pre.screen, mem, base, nn, px, py));
        assert(self@ =~= draw_result(pre, x, y, n)->Ok_0);
        Ok(())
    }

    /// FX55: copy `V0..=Vx` into `memory[I..]`.
    fn store_registers(&mut self, x: u8) -> (r: Result<(), Chip8Error>)
        requires
            old(self).wf(),
            x < 16,
            old(self)@.program_counter + 1 < CHIP8_MEMORY_SIZE,
        ensures
            final(self).wf(),
            result_outcome(old(self)@, final(self)@, store_result(old(self)@, x), r),
    {
        if self.memory_register + (x as usize) >= CHIP8_MEMORY_SIZE {
            return Err(Chip8Error::MemoryOutOfBounds);
        }
        let ghost pre = self@;
        let mut i: usize = 0;
        while i <= x as usize
            invariant
                pre.wf(),
                i <= x as usize + 1,
                x < 16,
                pre.memory_register + x < CHIP8_MEMORY_SIZE,
                self@.memory.len() == CHIP8_MEMORY_SIZE,
                forall|a: int|
                    0 <= a < CHIP8_MEMORY_SIZE ==> #[trigger] self@.memory[a] == (
                    if pre.memory_register <= a < pre.memory_register + i {
                        pre.generic_registers[a - pre.memory_register]
                    } else {
                        pre.memory[a]
                    }),
                self@ == (MachineView { memory: self@.memory, ..pre }),
            decreases x as int + 1 - i,
        {
            let v = self.generic_registers[i];
            self.memory.set(self.memory_register + i, v);
            i = i + 1;
        }
        self.program_counter = self.program_counter + 2;
        assert(self@.memory =~= store_result(pre, x)->Ok_0.memory);
        assert(self@ =~= store_result(pre, x)->Ok_0);
        Ok(())
    }

    /// FX65: copy `memory[I..]` into `V0..=Vx`.
    fn load_registers(&mut self, x: u8) -> (r: Result<(), Chip8Error>)
        requires
            old(self).wf(),
            x < 16,
            old(self)@.program_counter + 1 < CHIP8_MEMORY_SIZE,
        ensures
            final(self).wf(),
            result_outcome(old(self)@, final(self)@, load_result(old(self)@, x), r),
    {
        if self.memory_register + (x as usize) >= CHIP8_MEMORY_SIZE {
            return Err(Chip8Error::MemoryOutOfBounds);
        }
        let ghost pre = self@;
        let mut i: usize = 0;
        while i <= x as usize
            invariant
                pre.wf(),
                i <= x as usize + 1,
                x < 16,
                pre.memory_register + x < CHIP8_MEMORY_SIZE,
                self@.generic_registers.len() == 16,
                forall|j: int|
                    0 <= j < 16 ==> #[trigger] self@.generic_registers[j] == (
                    if 0 <= j < i {
                        pre.memory[pre.memory_register + j]
                    } else {
                        pre.generic_registers[j]
                    }),
                self@ == (MachineView { generic_registers: self@.generic_registers, ..pre }),
            decreases x as int + 1 - i,
        {
            let v = self.memory[self.memory_register + i];
            self.generic_registers.set(i, v);
            i = i + 1;
        }
        self.program_counter = self.program_counter + 2;
        assert(self@.generic_registers =~= load_result(pre, x)->Ok_0.generic_registers);
        assert(self@ =~= load_result(pre, x)->Ok_0);
        Ok(())
    }
}

/// Whether the draw of the `n`-row sprite toggles cell `p` and the sprite
/// bit responsible lies before row `r`, or in row `r` before column `c`: the
/// part of a draw already performed when the engine's scan stands at
/// `(r, c)`.
pub open spec fn draw_toggles_before(
    mem: Seq<u8>,
    i: int,
    n: int,
    px: int,
    py: int,
    p: int,
    r: int,
    c: int,
) -> bool {
    let row = p / (CHIP8_SCREEN_WIDTH as int);
    let col = p % (CHIP8_SCREEN_WIDTH as int);
    &&& draw_toggles(mem, i, n, px, py, p)
    &&& (row - py < r || (row - py == r && col - px < c))
}

/// A pointwise-equal pair of scan positions sees the same collisions.
proof fn lemma_white_exists_unchanged(
    screen: Seq<PixelStatus>,
    mem: Seq<u8>,
    i: int,
    n: int,
    px: int,
    py: int,
    r1: int,
    c1: int,
    r2: int,
    c2: int,
)
    requires
        forall|q: int|
            0 <= q < screen.len() ==> #[trigger] draw_toggles_before(mem, i, n, px, py, q, r1, c1)
                == draw_toggles_before(mem, i, n, px, py, q, r2, c2),
    ensures
        (exists|q: int|
            0 <= q < screen.len() && #[trigger] draw_toggles_before(mem, i, n, px, py, q, r1, c1)
                && screen[q] is White) == (exists|q: int|
            0 <= q < screen.len() && #[trigger] draw_toggles_before(mem, i, n, px, py, q, r2, c2)
                && screen[q] is White),
{
    if exists|q: int|
        0 <= q < screen.len() && #[trigger] draw_toggles_before(mem, i, n, px, py, q, r1, c1)
            && screen[q] is White {
        let qw = choose|q: int|
            0 <= q < screen.len() && #[trigger] draw_toggles_before(mem, i, n, px, py, q, r1, c1)
                && screen[q] is White;
        assert(draw_toggles_before(mem, i, n, px, py, qw, r2, c2));
    }
    if exists|q: int|
        0 <= q < screen.len() && #[trigger] draw_toggles_before(mem, i, n, px, py, q, r2, c2)
            && screen[q] is White {
        let qw = choose|q: int|
            0 <= q < screen.len() && #[trigger] draw_toggles_before(mem, i, n, px, py, q, r2, c2)
                && screen[q] is White;
        assert(draw_toggles_before(mem, i, n, px, py, qw, r1, c1));
    }
}

/// Advancing the scan one column adds at most the collision at the cell `p`
/// under the scanned bit.
proof fn lemma_white_exists_step(
    screen: Seq<PixelStatus>,
    mem: Seq<u8>,
    i: int,
    n: int,
    px: int,
    py: int,
    r: int,
    c: int,
    p: int,
)
    requires
        0 <= p < screen.len(),
        forall|q: int|
            0 <= q < screen.len() && q != p ==> #[trigger] draw_toggles_before(
                mem,
                i,
                n,
                px,
                py,
                q,
                r,
                c + 1,
            ) == draw_toggles_before(mem, i, n, px, py, q, r, c),
        !draw_toggles_before(mem, i, n, px, py, p, r, c),
    ensures
        (exists|q: int|
            0 <= q < screen.len() && #[trigger] draw_toggles_before(mem, i, n, px, py, q, r, c + 1)
                && screen[q] is White) == ((exists|q: int|
            0 <= q < screen.len() && #[trigger] draw_toggles_before(mem, i, n, px, py, q, r, c)
                && screen[q] is White) || (draw_toggles_before(mem, i, n, px, py, p, r, c + 1)
            && screen[p] is White)),
{
    if exists|q: int|
        0 <= q < screen.len() && #[trigger] draw_toggles_before(mem, i, n, px, py, q, r, c + 1)
            && screen[q] is White {
        let qw = choose|q: int|
            0 <= q < screen.len() && #[trigger] draw_toggles_before(mem, i, n, px, py, q, r, c + 1)
                && screen[q] is White;
        if qw != p {
            assert(draw_toggles_before(mem, i, n, px, py, qw, r, c));
        }
    }
    if exists|q: int|
        0 <= q < screen.len() && #[trigger] draw_toggles_before(mem, i, n, px, py, q, r, c)
            && screen[q] is White {
        let qw = choose|q: int|
            0 <= q < screen.len() && #[trigger] draw_toggles_before(mem, i, n, px, py, q, r, c)
                && screen[q] is White;
        assert(qw != p);
        assert(draw_toggles_before(mem, i, n, px, py, qw, r, c + 1));
    }
}

/// Row-major decomposition: a cell index built from an in-range row and
/// column decomposes back into them, and lies inside the framebuffer.
proof fn lemma_pixel_row_col(row: int, col: int)
    requires
        0 <= row < CHIP8_SCREEN_HEIGHT,
        0 <= col < CHIP8_SCREEN_WIDTH,
    ensures
        ({
            let p = row * (CHIP8_SCREEN_WIDTH as int) + col;
            &&& 0 <= p < CHIP8_SCREEN_WIDTH * CHIP8_SCREEN_HEIGHT
            &&& p / (CHIP8_SCREEN_WIDTH as int) == row
            &&& p % (CHIP8_SCREEN_WIDTH as int) == col
        }),
{
    let p = row * (CHIP8_SCREEN_WIDTH as int) + col;
    lemma_fundamental_div_mod_converse(p, CHIP8_SCREEN_WIDTH as int, row, col);
}

/// Every framebuffer index decomposes into its row and column.
proof fn lemma_cell_decompose(q: int)
    requires
        0 <= q < CHIP8_SCREEN_WIDTH * CHIP8_SCREEN_HEIGHT,
    ensures
        ({
            let row = q / (CHIP8_SCREEN_WIDTH as int);
            let col = q % (CHIP8_SCREEN_WIDTH as int);
            &&& q == row * (CHIP8_SCREEN_WIDTH as int) + col
            &&& 0 <= row < CHIP8_SCREEN_HEIGHT
            &&& 0 <= col < CHIP8_SCREEN_WIDTH
        }),
{
    lemma_fundamental_div_mod(q, CHIP8_SCREEN_WIDTH as int);
}

/// Advancing the scan past a set sprite bit extends the performed part of
/// the draw by exactly the cell `p` under that bit.
proof fn lemma_toggle_step(mem: Seq<u8>, i: int, n: int, px: int, py: int, r: int, c: int, p: int)
    requires
        0 <= r < n,
        0 <= c < 8,
        0 <= py,
        py + n <= CHIP8_SCREEN_HEIGHT,
        0 <= px,
        px + 8 <= CHIP8_SCREEN_WIDTH,
        p == (py + r) * (CHIP8_SCREEN_WIDTH as int) + px + c,
    ensures
        forall|q: int|
            0 <= q < CHIP8_SCREEN_WIDTH * CHIP8_SCREEN_HEIGHT && q != p ==> (draw_toggles_before(
                mem,
                i,
                n,
                px,
                py,
                q,
                r,
                c + 1,
            ) == draw_toggles_before(mem, i, n, px, py, q, r, c)),
        draw_toggles_before(mem, i, n, px, py, p, r, c + 1) == draw_toggles(mem, i, n, px, py, p),
        !draw_toggles_before(mem, i, n, px, py, p, r, c),
{
    lemma_pixel_row_col(py + r, px + c);
    assert forall|q: int|
        0 <= q < CHIP8_SCREEN_WIDTH * CHIP8_SCREEN_HEIGHT && q != p implies (draw_toggles_before(
        mem,
        i,
        n,
        px,
        py,
        q,
        r,
        c + 1,
    ) == draw_toggles_before(mem, i, n, px, py, q, r, c)) by {
        lemma_cell_decompose(q);
    }
}

/// Advancing the scan past an unset sprite bit performs nothing new.
proof fn lemma_no_toggle_step(
    mem: Seq<u8>,
    i: int,
    n: int,
    px: int,
    py: int,
    r: int,
    c: int,
    p: int,
)
    requires
        0 <= r < n,
        0 <= c < 8,
        0 <= py,
        py + n <= CHIP8_SCREEN_HEIGHT,
        0 <= px,
        px + 8 <= CHIP8_SCREEN_WIDTH,
        p == (py + r) * (CHIP8_SCREEN_WIDTH as int) + px + c,
        !sprite_bit(mem[i + r], c),
    ensures
        forall|q: int|
            0 <= q < CHIP8_SCREEN_WIDTH * CHIP8_SCREEN_HEIGHT ==> (draw_toggles_before(
                mem,
                i,
                n,
                px,
                py,
                q,
                r,
                c + 1,
            ) == draw_toggles_before(mem, i, n, px, py, q, r, c)),
{
    lemma_pixel_row_col(py + r, px + c);
    assert forall|q: int|
        0 <= q < CHIP8_SCREEN_WIDTH * CHIP8_SCREEN_HEIGHT implies (draw_toggles_before(
        mem,
        i,
        n,
        px,
        py,
        q,
        r,
        c + 1,
    ) == draw_toggles_before(mem, i, n, px, py, q, r, c)) by {
        lemma_cell_decompose(q);
    }
}

/// Finishing a sprite row is the same as standing at the start of the next.
proof fn lemma_row_rollover(mem: Seq<u8>, i: int, n: int, px: int, py: int, r: int)
    ensures
        forall|q: int|
            0 <= q < CHIP8_SCREEN_WIDTH * CHIP8_SCREEN_HEIGHT ==> (draw_toggles_before(
                mem,
                i,
                n,
                px,
                py,
                q,
                r,
                8,
            ) == draw_toggles_before(mem, i, n, px, py, q, r + 1, 0)),
{
    assert forall|q: int|
        0 <= q < CHIP8_SCREEN_WIDTH * CHIP8_SCREEN_HEIGHT implies (draw_toggles_before(
        mem,
        i,
        n,
        px,
        py,
        q,
        r,
        8,
    ) == draw_toggles_before(mem, i, n, px, py, q, r + 1, 0)) by {
        lemma_cell_decompose(q);
    }
}

/// A scan standing past the last row has performed the whole draw.
proof fn lemma_done(mem: Seq<u8>, i: int, n: int, px: int, py: int)
    ensures
        forall|q: int|
            0 <= q < CHIP8_SCREEN_WIDTH * CHIP8_SCREEN_HEIGHT ==> (draw_toggles_before(
                mem,
                i,
                n,
                px,
                py,
                q,
                n,
                0,
            ) == draw_toggles(mem, i, n, px, py, q)),
{
    assert forall|q: int|
        0 <= q < CHIP8_SCREEN_WIDTH * CHIP8_SCREEN_HEIGHT implies (draw_toggles_before(
        mem,
        i,
        n,
        px,
        py,
        q,
        n,
        0,
    ) == draw_toggles(mem, i, n, px, py, q)) by {
        lemma_cell_decompose(q);
    }
}

} // verus!
