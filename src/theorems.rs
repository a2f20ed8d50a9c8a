use vstd::prelude::*;

use crate::bus::{
    collides, drawn, lemma_pixel_of, sprite_at, sprite_bit, toggled, BusModel, PIXEL_COUNT,
    WINDOW_HEIGHT,
};
use crate::error::Chip8Error;
use crate::instruction::{
    add_wrapped, carry, execute_spec, n_of, nn_of, nnn_of, op_of, tick_spec, x_of, y_of, CpuModel,
    PcOp,
};
use crate::memory::{
    writable, FONT_OFFSET, FONT_SIZE, MEMORY_SIZE, STACK_LIMIT, STACK_OFFSET, USER_OFFSET,
};

verus! {

/// The instruction word with nibbles `op`, `x`, `y`, `n`.
pub open spec fn encode(op: int, x: int, y: int, n: int) -> u16 {
    (op * 0x1000 + x * 0x100 + y * 0x10 + n) as u16
}

/// Decoding takes an instruction word apart into the nibbles it was built
/// from.
pub proof fn lemma_decode(op: int, x: int, y: int, n: int)
    requires
        0 <= op < 16,
        0 <= x < 16,
        0 <= y < 16,
        0 <= n < 16,
    ensures
        op_of(encode(op, x, y, n)) == op,
        x_of(encode(op, x, y, n)) == x,
        y_of(encode(op, x, y, n)) == y,
        n_of(encode(op, x, y, n)) == n,
        nn_of(encode(op, x, y, n)) == y * 0x10 + n,
        nnn_of(encode(op, x, y, n)) == x * 0x100 + y * 0x10 + n,
{
    let w = op * 0x1000 + x * 0x100 + y * 0x10 + n;
    assert(0 <= w < 0x10000);
    assert(encode(op, x, y, n) as int == w);
    assert(w / 0x1000 == op) by (nonlinear_arith)
        requires
            w == op * 0x1000 + x * 0x100 + y * 0x10 + n,
            0 <= x < 16,
            0 <= y < 16,
            0 <= n < 16,
    ;
    assert((w / 0x100) % 16 == x) by (nonlinear_arith)
        requires
            w == op * 0x1000 + x * 0x100 + y * 0x10 + n,
            0 <= op < 16,
            0 <= x < 16,
            0 <= y < 16,
            0 <= n < 16,
    ;
    assert((w / 0x10) % 16 == y) by (nonlinear_arith)
        requires
            w == op * 0x1000 + x * 0x100 + y * 0x10 + n,
            0 <= op < 16,
            0 <= x < 16,
            0 <= y < 16,
            0 <= n < 16,
    ;
    assert(w % 16 == n) by (nonlinear_arith)
        requires
            w == op * 0x1000 + x * 0x100 + y * 0x10 + n,
            0 <= n < 16,
    ;
    assert(w % 0x100 == y * 0x10 + n) by (nonlinear_arith)
        requires
            w == op * 0x1000 + x * 0x100 + y * 0x10 + n,
            0 <= y < 16,
            0 <= n < 16,
    ;
    assert(w % 0x1000 == x * 0x100 + y * 0x10 + n) by (nonlinear_arith)
        requires
            w == op * 0x1000 + x * 0x100 + y * 0x10 + n,
            0 <= x < 16,
            0 <= y < 16,
            0 <= n < 16,
    ;
}

/// Adding an immediate (`7XNN`) wraps modulo 256, leaves the flag alone
/// and never fails, for every register and every operand.
pub proof fn lemma_add_immediate_wraps(c: CpuModel, b: BusModel, x: int, nn: int, random: u8)
    requires
        c.wf(),
        0 <= x < 16,
        0 <= nn < 256,
    ensures
        execute_spec(c, b, encode(0x7, x, nn / 16, nn % 16), random) == Ok::<
            (CpuModel, BusModel, PcOp),
            Chip8Error,
        >((c.set_reg(x, ((c.regs[x] + nn) % 256) as u8), b, PcOp::Next)),
{
    lemma_decode(0x7, x, nn / 16, nn % 16);
}

/// Adding a register (`8XY4`) wraps modulo 256, sets the flag register to
/// the carry of the true sum, and never fails, for every pair of
/// registers.
pub proof fn lemma_add_register_wraps(c: CpuModel, b: BusModel, x: int, y: int, random: u8)
    requires
        c.wf(),
        0 <= x < 16,
        0 <= y < 16,
    ensures
        execute_spec(c, b, encode(0x8, x, y, 0x4), random) == Ok::<
            (CpuModel, BusModel, PcOp),
            Chip8Error,
        >(
            (
                c.set_reg_flag(
                    x,
                    ((c.regs[x] + c.regs[y]) % 256) as u8,
                    if c.regs[x] + c.regs[y] > 255 {
                        1u8
                    } else {
                        0u8
                    },
                ),
                b,
                PcOp::Next,
            ),
        ),
{
    lemma_decode(0x8, x, y, 0x4);
    assert(add_wrapped(c.regs[x], c.regs[y]) == ((c.regs[x] + c.regs[y]) % 256) as u8);
    assert(carry(c.regs[x], c.regs[y]) == if c.regs[x] + c.regs[y] > 255 {
        1u8
    } else {
        0u8
    });
}

/// Bit `k` of `v`, counted from the least significant bit.
pub open spec fn bit(v: u8, k: u8) -> bool {
    (v >> k) & 1u8 == 1u8
}

/// The register that instruction `8XYN` leaves in `VX`.
pub open spec fn alu_result(c: CpuModel, b: BusModel, x: int, y: int, n: int) -> u8 {
    execute_spec(c, b, encode(0x8, x, y, n), 0)->Ok_0.0.regs[x]
}

/// OR (`8XY1`), AND (`8XY2`) and XOR (`8XY3`) are correct bit by bit, for
/// every pair of registers and every pair of values.
pub proof fn lemma_logic_ops_bitwise(c: CpuModel, b: BusModel, x: int, y: int)
    requires
        c.wf(),
        0 <= x < 16,
        0 <= y < 16,
    ensures
        execute_spec(c, b, encode(0x8, x, y, 0x1), 0) is Ok,
        execute_spec(c, b, encode(0x8, x, y, 0x2), 0) is Ok,
        execute_spec(c, b, encode(0x8, x, y, 0x3), 0) is Ok,
        forall|k: u8|
            k < 8 ==> {
                &&& bit(alu_result(c, b, x, y, 0x1), k) == (bit(c.regs[x], k) || bit(c.regs[y], k))
                &&& bit(alu_result(c, b, x, y, 0x2), k) == (bit(c.regs[x], k) && bit(c.regs[y], k))
                &&& bit(alu_result(c, b, x, y, 0x3), k) == (bit(c.regs[x], k) != bit(c.regs[y], k))
            },
{
    lemma_decode(0x8, x, y, 0x1);
    lemma_decode(0x8, x, y, 0x2);
    lemma_decode(0x8, x, y, 0x3);
    let vx = c.regs[x];
    let vy = c.regs[y];
    assert(alu_result(c, b, x, y, 0x1) == vx | vy);
    assert(alu_result(c, b, x, y, 0x2) == vx & vy);
    assert(alu_result(c, b, x, y, 0x3) == vx ^ vy);
    assert forall|k: u8| k < 8 implies {
        &&& bit(vx | vy, k) == (bit(vx, k) || bit(vy, k))
        &&& bit(vx & vy, k) == (bit(vx, k) && bit(vy, k))
        &&& bit(vx ^ vy, k) == (bit(vx, k) != bit(vy, k))
    } by {
        assert((((vx | vy) >> k) & 1u8 == 1u8) == (((vx >> k) & 1u8 == 1u8) || ((vy >> k) & 1u8
            == 1u8))) by (bit_vector);
        assert((((vx & vy) >> k) & 1u8 == 1u8) == (((vx >> k) & 1u8 == 1u8) && ((vy >> k) & 1u8
            == 1u8))) by (bit_vector);
        assert((((vx ^ vy) >> k) & 1u8 == 1u8) == (((vx >> k) & 1u8 == 1u8) != ((vy >> k) & 1u8
            == 1u8))) by (bit_vector);
    }
}

/// Drawing the same sprite at the same place twice gives back the
/// framebuffer as it was, and the second draw reports a collision exactly
/// when the first one turned some pixel on.
pub proof fn lemma_draw_twice(display: Seq<bool>, sprite: Seq<u8>, x: int, y: int)
    ensures
        drawn(drawn(display, sprite, x, y), sprite, x, y) == display,
        collides(drawn(display, sprite, x, y), sprite, x, y) <==> exists|i: int|
            0 <= i < display.len() && !display[i] && #[trigger] toggled(sprite, x, y, i),
{
    let once = drawn(display, sprite, x, y);
    assert(drawn(once, sprite, x, y) =~= display);
    if collides(once, sprite, x, y) {
        let i = choose|i: int| 0 <= i < once.len() && once[i] && #[trigger] toggled(sprite, x, y, i);
        assert(!display[i]);
    }
    if exists|i: int| 0 <= i < display.len() && !display[i] && #[trigger] toggled(sprite, x, y, i) {
        let i = choose|i: int|
            0 <= i < display.len() && !display[i] && #[trigger] toggled(sprite, x, y, i);
        assert(once[i]);
    }
}

/// Drawing the same sprite twice on a blank screen leaves it blank, and
/// the second draw reports a collision exactly when the sprite has a set
/// pixel on the screen.
pub proof fn lemma_draw_twice_on_blank(sprite: Seq<u8>, x: int, y: int)
    ensures
        ({
            let blank = Seq::new(PIXEL_COUNT as nat, |i: int| false);
            &&& drawn(drawn(blank, sprite, x, y), sprite, x, y) == blank
            &&& collides(drawn(blank, sprite, x, y), sprite, x, y) <==> exists|i: int|
                0 <= i < PIXEL_COUNT && #[trigger] toggled(sprite, x, y, i)
        }),
{
    let blank = Seq::new(PIXEL_COUNT as nat, |i: int| false);
    lemma_draw_twice(blank, sprite, x, y);
    if exists|i: int| 0 <= i < PIXEL_COUNT && #[trigger] toggled(sprite, x, y, i) {
        let i = choose|i: int| 0 <= i < PIXEL_COUNT && #[trigger] toggled(sprite, x, y, i);
        assert(!blank[i]);
    }
}

/// Running the same draw instruction `DXYN` twice, with `X` and `Y` other
/// than the flag register, restores the framebuffer, and the second run
/// sets the flag exactly when the first turned some pixel on.
pub proof fn lemma_draw_instruction_twice(
    c: CpuModel,
    b: BusModel,
    x: int,
    y: int,
    n: int,
    r1: u8,
    r2: u8,
)
    requires
        c.wf(),
        b.wf(),
        0 <= x < 0xF,
        0 <= y < 0xF,
        0 <= n < 16,
        c.i + n <= MEMORY_SIZE,
    ensures
        ({
            let ins = encode(0xD, x, y, n);
            let first = execute_spec(c, b, ins, r1);
            let second = execute_spec(first->Ok_0.0, first->Ok_0.1, ins, r2);
            let sprite = sprite_at(c.memory, c.i, n);
            let vx = c.regs[x] as int;
            let vy = c.regs[y] as int;
            &&& first is Ok
            &&& second is Ok
            &&& second->Ok_0.1 == b
            &&& second->Ok_0.0.regs[0xF] == 1 <==> exists|i: int|
                0 <= i < PIXEL_COUNT && !b.display[i] && #[trigger] toggled(sprite, vx, vy, i)
        }),
{
    lemma_decode(0xD, x, y, n);
    let ins = encode(0xD, x, y, n);
    let sprite = sprite_at(c.memory, c.i, n);
    let vx = c.regs[x] as int;
    let vy = c.regs[y] as int;
    lemma_draw_twice(b.display, sprite, vx, vy);
    let first = execute_spec(c, b, ins, r1);
    let c1 = first->Ok_0.0;
    let b1 = first->Ok_0.1;
    assert(c1.regs[x] == c.regs[x] && c1.regs[y] == c.regs[y]);
    assert(b1.display == drawn(b.display, sprite, vx, vy));
    let second = execute_spec(c1, b1, ins, r2);
    assert(second->Ok_0.1.display == b.display);
    assert(second->Ok_0.1 == b);
}

/// A sprite drawn near an edge wraps: sprite cell `(dx, dy)` lands on
/// column `(x + dx) mod 64` and row `(y + dy) mod 32`, and that pixel flips
/// exactly when the cell is set.
pub proof fn lemma_draw_wraps(
    display: Seq<bool>,
    sprite: Seq<u8>,
    x: int,
    y: int,
    dx: int,
    dy: int,
)
    requires
        display.len() == PIXEL_COUNT,
        sprite.len() <= WINDOW_HEIGHT,
        0 <= x,
        0 <= y,
        0 <= dx < 8,
        0 <= dy < sprite.len(),
    ensures
        ({
            let i = ((y + dy) % 32) * 64 + (x + dx) % 64;
            &&& 0 <= i < PIXEL_COUNT
            &&& drawn(display, sprite, x, y)[i] == (display[i] != sprite_bit(sprite[dy], dx))
        }),
{
    lemma_pixel_of(x, y, dx, dy);
    assert((x % 64 + dx) % 64 == (x + dx) % 64) by (nonlinear_arith)
        requires
            0 <= x,
            0 <= dx,
    ;
    assert((y % 32 + dy) % 32 == (y + dy) % 32) by (nonlinear_arith)
        requires
            0 <= y,
            0 <= dy,
    ;
}

/// The decimal store `FX33` writes three digits, each below ten, that make
/// up `VX` again: hundreds at `I`, tens at `I + 1`, ones at `I + 2`.
pub proof fn lemma_bcd_digits(c: CpuModel, b: BusModel, x: int, random: u8)
    requires
        c.wf(),
        0 <= x < 16,
        writable(c.i),
        writable(c.i + 2),
    ensures
        ({
            let r = execute_spec(c, b, encode(0xF, x, 3, 3), random);
            let bytes = r->Ok_0.0.memory.bytes;
            &&& r is Ok
            &&& r->Ok_0.1 == b
            &&& r->Ok_0.2 == PcOp::Next
            &&& bytes[c.i] < 10 && bytes[c.i + 1] < 10 && bytes[c.i + 2] < 10
            &&& bytes[c.i] * 100 + bytes[c.i + 1] * 10 + bytes[c.i + 2] == c.regs[x]
        }),
{
    lemma_decode(0xF, x, 3, 3);
}

/// A call `2NNN` from `pc` followed by the return `00EE` at `NNN` comes
/// back to `pc + 2` with the stack depth, the registers, `I` and the bus as
/// they were.
pub proof fn lemma_call_then_return(c: CpuModel, b: BusModel, nnn: int, r1: u8, r2: u8)
    requires
        c.wf(),
        c.pc + 1 < MEMORY_SIZE,
        USER_OFFSET <= nnn,
        nnn + 1 < MEMORY_SIZE,
        c.memory.word_at(c.pc) == 0x2000 + nnn,
        c.memory.word_at(nnn) == 0x00EE,
        c.memory.sp < STACK_LIMIT,
    ensures
        ({
            let first = tick_spec(c, b, r1);
            let second = tick_spec(first->Ok_0.0, first->Ok_0.1, r2);
            &&& first is Ok
            &&& first->Ok_0.0.pc == nnn
            &&& first->Ok_0.0.memory.depth() == c.memory.depth() + 1
            &&& first->Ok_0.0.memory.word_at(c.memory.sp) == c.pc + 2
            &&& second is Ok
            &&& second->Ok_0.0.pc == c.pc + 2
            &&& second->Ok_0.0.memory.sp == c.memory.sp
            &&& second->Ok_0.0.regs == c.regs
            &&& second->Ok_0.0.i == c.i
            &&& second->Ok_0.1 == b
        }),
{
    let ins = (0x2000 + nnn) as u16;
    lemma_decode(0x2, nnn / 0x100, (nnn / 0x10) % 16, nnn % 16);
    assert(encode(0x2, nnn / 0x100, (nnn / 0x10) % 16, nnn % 16) == ins) by (nonlinear_arith)
        requires
            0 <= nnn < 0x1000,
            ins == (0x2000 + nnn) as u16,
    ;
    let m = c.memory.push(c.pc + 2);
    let c1 = c.set_memory(m).set_pc(nnn);
    assert(m.bytes[nnn] == c.memory.bytes[nnn] && m.bytes[nnn + 1] == c.memory.bytes[nnn + 1]);
    assert(c1.memory.word_at(nnn) == 0x00EE);
    let hi = ((c.pc + 2) / 256) % 256;
    let lo = (c.pc + 2) % 256;
    assert(hi * 256 + lo == c.pc + 2) by (nonlinear_arith)
        requires
            hi == ((c.pc + 2) / 256) % 256,
            lo == (c.pc + 2) % 256,
            0 <= c.pc + 2 < 0x10000,
    ;
}

/// A return `00EE` with an empty stack is refused with a stack underflow;
/// the program counter does not wrap around to some other address.
pub proof fn lemma_return_on_empty_stack(c: CpuModel, b: BusModel, random: u8)
    requires
        c.wf(),
        c.pc + 1 < MEMORY_SIZE,
        c.memory.word_at(c.pc) == 0x00EE,
        c.memory.sp == STACK_OFFSET,
    ensures
        tick_spec(c, b, random) == Err::<(CpuModel, BusModel), Chip8Error>(
            Chip8Error::StackUnderflow,
        ),
{
    lemma_decode(0x0, 0x0, 0xE, 0xE);
}

/// Every successful tick keeps the machine well-formed: the font table is
/// as it was loaded, the stack pointer stays inside the stack region, the
/// timers stay in range, and the register file keeps its size.
pub proof fn lemma_tick_preserves_wf(c: CpuModel, b: BusModel, random: u8)
    requires
        c.wf(),
        b.wf(),
    ensures
        tick_spec(c, b, random) is Ok ==> tick_spec(c, b, random)->Ok_0.0.wf() && tick_spec(
            c,
            b,
            random,
        )->Ok_0.1.wf(),
{
    if c.pc + 1 < MEMORY_SIZE {
        let ins = c.memory.word_at(c.pc) as u16;
        let r = execute_spec(c, b, ins, random);
        if r is Ok {
            let c2 = r->Ok_0.0;
            let b2 = r->Ok_0.1;
            let m = c2.memory;
            let font = m.bytes.subrange(FONT_OFFSET as int, FONT_SIZE as int);
            let old_font = c.memory.bytes.subrange(FONT_OFFSET as int, FONT_SIZE as int);
            assert(font =~= old_font);
            assert(c2.regs.len() == 16);
            assert(b2.display.len() == PIXEL_COUNT);
        }
    }
}

} // verus!
