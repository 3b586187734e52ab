//! Laws of the instruction semantics that relate several operations or
//! several states, proved once over the spec transition function that the
//! engine's contracts are stated against.

use vstd::prelude::*;

use crate::engine::draw_collides;
use crate::engine::step_spec;
use crate::engine::draw_result;
use crate::engine::draw_screen;
use crate::engine::draw_toggles;
use crate::engine::exec_inst_spec;
use crate::engine::flip;
use crate::engine::load_result;
use crate::engine::store_result;
use crate::engine::with_reg;
use crate::isa::Instr;
use crate::machine::CHIP8_CALL_STACK_MAX_DEPTH;
use crate::machine::CHIP8_MEMORY_SIZE;
use crate::machine::MachineView;

verus! {

/// Law: 6XNN sets `Vx` to `nn`, leaves every other register alone, and
/// advances the program counter by exactly two bytes.
pub proof fn lemma_set_imm_sets_register(s: MachineView, x: u8, nn: u8, rnd: u8)
    requires
        s.wf(),
        x < 16,
    ensures
        ({
            let r = exec_inst_spec(s, Instr::SetImm(x, nn), rnd);
            &&& r is Ok
            &&& r->Ok_0.generic_registers[x as int] == nn
            &&& r->Ok_0.program_counter == s.program_counter + 2
            &&& forall|j: int|
                0 <= j < 16 && j != x ==> r->Ok_0.generic_registers[j] == s.generic_registers[j]
        }),
{
}

/// Law: with `Vx != Vy`, 5XY0 does not skip (the program counter advances by
/// two); after first copying `Vy` into `Vx` with 8XY0, the same instruction
/// skips (the counter advances by four).
pub proof fn lemma_skip_if_eq_reg(s: MachineView, x: u8, y: u8, rnd: u8)
    requires
        s.wf(),
        x < 16,
        y < 16,
        s.generic_registers[x as int] != s.generic_registers[y as int],
    ensures
        ({
            let r1 = exec_inst_spec(s, Instr::SkipIfEqReg(x, y), rnd);
            &&& r1 is Ok
            &&& r1->Ok_0.program_counter == s.program_counter + 2
        }),
        ({
            let c = exec_inst_spec(s, Instr::Copy(x, y), rnd);
            let r2 = exec_inst_spec(c->Ok_0, Instr::SkipIfEqReg(x, y), rnd);
            &&& c is Ok
            &&& r2 is Ok
            &&& r2->Ok_0.program_counter == c->Ok_0.program_counter + 4
        }),
{
}

/// Law: FX55 followed by FX65 with the same `x` and the same `I` restores
/// `V0..=Vx` from memory. The intermediate state `t` may hold arbitrary
/// register values: memory is the source of truth for the round trip, so only
/// the stored memory and the address register need to have been preserved.
pub proof fn lemma_store_load_round_trip(s: MachineView, t: MachineView, x: u8)
    requires
        s.wf(),
        t.wf(),
        x < 16,
        s.memory_register + x < CHIP8_MEMORY_SIZE,
        t.memory == store_result(s, x)->Ok_0.memory,
        t.memory_register == s.memory_register,
    ensures
        store_result(s, x) is Ok,
        ({
            let r = load_result(t, x);
            &&& r is Ok
            &&& forall|j: int|
                0 <= j <= x ==> r->Ok_0.generic_registers[j] == s.generic_registers[j]
        }),
{
}

/// Law: an XOR-draw is its own inverse. Drawing the same sprite at the same
/// position twice returns the framebuffer to its pre-draw state, and the
/// second draw reports a collision in `VF` exactly when some sprite bit fell
/// on a cell that was unlit before the first draw (the first draw lit it, so
/// the second turned a lit cell off).
pub proof fn lemma_draw_twice_restores(s: MachineView, x: u8, y: u8, n: u8)
    requires
        s.wf(),
        x < 16,
        y < 16,
        n < 16,
        x != 15,
        y != 15,
        draw_result(s, x, y, n) is Ok,
    ensures
        ({
            let s1 = draw_result(s, x, y, n)->Ok_0;
            let r2 = draw_result(s1, x, y, n);
            let px = s.generic_registers[x as int] as int;
            let py = s.generic_registers[y as int] as int;
            &&& r2 is Ok
            &&& r2->Ok_0.screen == s.screen
            &&& (r2->Ok_0.generic_registers[15] == 1 <==> exists|p: int|
                0 <= p < s.screen.len() && #[trigger] draw_toggles(
                    s.memory,
                    s.memory_register,
                    n as int,
                    px,
                    py,
                    p,
                ) && s.screen[p] is Black)
        }),
{
    let s1 = draw_result(s, x, y, n)->Ok_0;
    let px = s.generic_registers[x as int] as int;
    let py = s.generic_registers[y as int] as int;
    let mem = s.memory;
    let base = s.memory_register;
    let nn = n as int;
    assert(s1.generic_registers[x as int] == s.generic_registers[x as int]);
    assert(s1.generic_registers[y as int] == s.generic_registers[y as int]);
    let r2 = draw_result(s1, x, y, n);
    assert(r2 is Ok);
    assert(r2->Ok_0.screen =~= s.screen) by {
        assert forall|p: int| 0 <= p < s.screen.len() implies r2->Ok_0.screen[p] == s.screen[p] by {
            assert(s1.screen[p] == if draw_toggles(mem, base, nn, px, py, p) {
                flip(s.screen[p])
            } else {
                s.screen[p]
            });
        }
    }
    if r2->Ok_0.generic_registers[15] == 1 {
        assert(draw_collides(s1.screen, mem, base, nn, px, py));
        let pw = choose|p: int|
            0 <= p < s1.screen.len() && draw_toggles(mem, base, nn, px, py, p)
                && s1.screen[p] is White;
        assert(s1.screen[pw] == flip(s.screen[pw]));
        assert(draw_toggles(mem, base, nn, px, py, pw) && s.screen[pw] is Black);
    }
    if exists|p: int|
        0 <= p < s.screen.len() && #[trigger] draw_toggles(mem, base, nn, px, py, p)
            && s.screen[p] is Black {
        let pw = choose|p: int|
            0 <= p < s.screen.len() && #[trigger] draw_toggles(mem, base, nn, px, py, p)
                && s.screen[p] is Black;
        assert(s1.screen[pw] == flip(s.screen[pw]));
        assert(s1.screen[pw] is White);
        assert(draw_collides(s1.screen, mem, base, nn, px, py));
    }
}

/// Law: the shift instructions ignore the `y` field entirely: decodings that
/// differ only in `y` execute identically.
pub proof fn lemma_shift_ignores_y_field(s: MachineView, x: u8, y1: u8, y2: u8, rnd: u8)
    ensures
        exec_inst_spec(s, Instr::ShiftRight(x, y1), rnd) == exec_inst_spec(
            s,
            Instr::ShiftRight(x, y2),
            rnd,
        ),
        exec_inst_spec(s, Instr::ShiftLeft(x, y1), rnd) == exec_inst_spec(
            s,
            Instr::ShiftLeft(x, y2),
            rnd,
        ),
{
}

/// Law: the shift instructions ignore the `y` operand's register value too.
/// Changing any register other than `Vx` and `VF` before a shift — in
/// particular `Vy` — leaves the shifted register and the flag it computes
/// unchanged.
pub proof fn lemma_shift_ignores_vy(s: MachineView, x: u8, y: u8, w: u8, v: u8, rnd: u8)
    requires
        s.wf(),
        x < 16,
        y < 16,
        w < 16,
        w != x,
        w != 15,
    ensures
        ({
            let a = exec_inst_spec(with_reg(s, w, v), Instr::ShiftRight(x, y), rnd);
            let b = exec_inst_spec(s, Instr::ShiftRight(x, y), rnd);
            &&& a is Ok
            &&& b is Ok
            &&& a->Ok_0.generic_registers[x as int] == b->Ok_0.generic_registers[x as int]
            &&& a->Ok_0.generic_registers[15] == b->Ok_0.generic_registers[15]
        }),
        ({
            let a = exec_inst_spec(with_reg(s, w, v), Instr::ShiftLeft(x, y), rnd);
            let b = exec_inst_spec(s, Instr::ShiftLeft(x, y), rnd);
            &&& a is Ok
            &&& b is Ok
            &&& a->Ok_0.generic_registers[x as int] == b->Ok_0.generic_registers[x as int]
            &&& a->Ok_0.generic_registers[15] == b->Ok_0.generic_registers[15]
        }),
{
}

/// Law: only the random byte distinguishes two steps from the same state,
/// and no failure depends on it: a step that fails fails identically however
/// the random source answers, so retrying a failed step reproduces the same
/// failure.
pub proof fn lemma_failed_step_deterministic(s: MachineView, rnd1: u8, rnd2: u8)
    requires
        step_spec(s, rnd1) is Err,
    ensures
        step_spec(s, rnd2) == step_spec(s, rnd1),
{
}

/// Law: a call followed by a return brings the program counter to exactly
/// two bytes past the call site (so the next instruction executed is the one
/// after the call) and restores the call-stack depth to its pre-call value.
pub proof fn lemma_call_then_return(s: MachineView, nnn: u16, rnd1: u8, rnd2: u8)
    requires
        s.wf(),
        s.call_stack_depth < CHIP8_CALL_STACK_MAX_DEPTH,
    ensures
        ({
            let c = exec_inst_spec(s, Instr::Call(nnn), rnd1);
            &&& c is Ok
            &&& c->Ok_0.program_counter == nnn
            &&& ({
                let r = exec_inst_spec(c->Ok_0, Instr::Return, rnd2);
                &&& r is Ok
                &&& r->Ok_0.program_counter == s.program_counter + 2
                &&& r->Ok_0.call_stack_depth == s.call_stack_depth
            })
        }),
{
}

} // verus!
