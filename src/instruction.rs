use vstd::prelude::*;

use crate::bus::{
    collides, drawn, lowest_key, sprite_at, BusModel, KEY_COUNT, PIXEL_COUNT, TIMER_UNIT,
};
use crate::error::Chip8Error;
use crate::memory::{writable, MemoryModel, GLYPH_SIZE, MEMORY_SIZE, STACK_LIMIT, STACK_OFFSET};

verus! {

/// How an instruction moves the program counter.
#[derive(Debug, Clone, Copy, PartialEq, Eq, Structural)]
pub enum PcOp {
    /// On to the following instruction.
    Next,
    /// Over the following instruction.
    Skip,
    /// To the given address.
    Jump(usize),
    /// Stay on this instruction; it runs again on the next tick.
    Halt,
}

/// The abstract state of the processor and the memory it owns.
pub struct CpuModel {
    pub pc: int,
    pub regs: Seq<u8>,
    pub i: int,
    pub memory: MemoryModel,
}

impl CpuModel {
    /// Sixteen registers, a 16-bit address register and well-formed memory.
    pub open spec fn wf(self) -> bool {
        &&& 0 <= self.pc <= usize::MAX
        &&& self.regs.len() == 16
        &&& 0 <= self.i <= u16::MAX
        &&& self.memory.wf()
    }

    /// Register `x` set to `v`.
    pub open spec fn set_reg(self, x: int, v: u8) -> CpuModel {
        CpuModel { regs: self.regs.update(x, v), ..self }
    }

    /// Register `x` set to `v`, then the flag register to `flag`.
    pub open spec fn set_reg_flag(self, x: int, v: u8, flag: u8) -> CpuModel {
        CpuModel { regs: self.regs.update(x, v).update(0xF, flag), ..self }
    }

    /// The address register set to `i`.
    pub open spec fn set_i(self, i: int) -> CpuModel {
        CpuModel { i, ..self }
    }

    /// The memory replaced by `memory`.
    pub open spec fn set_memory(self, memory: MemoryModel) -> CpuModel {
        CpuModel { memory, ..self }
    }

    /// The program counter set to `pc`.
    pub open spec fn set_pc(self, pc: int) -> CpuModel {
        CpuModel { pc, ..self }
    }
}

/// The leading nibble, which selects the instruction group.
pub open spec fn op_of(ins: u16) -> int {
    ins as int / 0x1000
}

/// The first register operand, bits 8-11.
pub open spec fn x_of(ins: u16) -> int {
    (ins as int / 0x100) % 16
}

/// The second register operand, bits 4-7.
pub open spec fn y_of(ins: u16) -> int {
    (ins as int / 0x10) % 16
}

/// The low nibble.
pub open spec fn n_of(ins: u16) -> int {
    ins as int % 16
}

/// The low byte.
pub open spec fn nn_of(ins: u16) -> u8 {
    (ins as int % 0x100) as u8
}

/// The low twelve bits, an address.
pub open spec fn nnn_of(ins: u16) -> int {
    ins as int % 0x1000
}

/// `a + b` modulo 256.
pub open spec fn add_wrapped(a: u8, b: u8) -> u8 {
    ((a + b) % 256) as u8
}

/// `a - b` modulo 256.
pub open spec fn sub_wrapped(a: u8, b: u8) -> u8 {
    ((a - b) % 256) as u8
}

/// The carry of `a + b`: 1 when the true sum exceeds 255.
pub open spec fn carry(a: u8, b: u8) -> u8 {
    if a + b > 255 {
        1
    } else {
        0
    }
}

/// The no-borrow flag of `a - b`: 1 when `a >= b`.
pub open spec fn no_borrow(a: u8, b: u8) -> u8 {
    if a >= b {
        1
    } else {
        0
    }
}

/// Memory after `regs[0..=x]` is stored from address `i` on.
pub open spec fn stored_block(memory: MemoryModel, i: int, regs: Seq<u8>, x: int) -> MemoryModel {
    MemoryModel {
        bytes: Seq::new(
            memory.bytes.len(),
            |a: int|
                if i <= a <= i + x {
                    regs[a - i]
                } else {
                    memory.bytes[a]
                },
        ),
        sp: memory.sp,
    }
}

/// Registers after `regs[0..=x]` are loaded from address `i` on.
pub open spec fn loaded_block(regs: Seq<u8>, memory: MemoryModel, i: int, x: int) -> Seq<u8> {
    Seq::new(
        regs.len(),
        |k: int|
            if k <= x {
                memory.bytes[i + k]
            } else {
                regs[k]
            },
    )
}

/// Memory after the decimal digits of `v` are stored at `i`, `i + 1` and
/// `i + 2`, hundreds first.
pub open spec fn stored_bcd(memory: MemoryModel, i: int, v: u8) -> MemoryModel {
    memory.store(i, (v / 100) as u8).store(i + 1, ((v / 10) % 10) as u8).store(i + 2, (v % 10) as u8)
}

/// The opcodes `0NNN`: clear screen, return, or the unsupported native
/// call.
pub open spec fn exec_system(c: CpuModel, b: BusModel, ins: u16) -> Result<
    (CpuModel, BusModel, PcOp),
    Chip8Error,
> {
    if ins == 0x00E0 {
        Ok((c, b.with_display(Seq::new(PIXEL_COUNT as nat, |p: int| false)), PcOp::Next))
    } else if ins == 0x00EE {
        if c.memory.sp == STACK_OFFSET {
            Err(Chip8Error::StackUnderflow)
        } else {
            Ok(
                (
                    c.set_memory(c.memory.pop()),
                    b,
                    PcOp::Jump(c.memory.word_at(c.memory.sp - 2) as usize),
                ),
            )
        }
    } else {
        Err(Chip8Error::NativeCall(ins))
    }
}

/// The opcodes `8XYN`: register copy, logic and arithmetic.
pub open spec fn exec_alu(c: CpuModel, b: BusModel, ins: u16) -> Result<
    (CpuModel, BusModel, PcOp),
    Chip8Error,
> {
    let x = x_of(ins);
    let vx = c.regs[x];
    let vy = c.regs[y_of(ins)];
    let n = n_of(ins);
    if n == 0x0 {
        Ok((c.set_reg(x, vy), b, PcOp::Next))
    } else if n == 0x1 {
        Ok((c.set_reg(x, vx | vy), b, PcOp::Next))
    } else if n == 0x2 {
        Ok((c.set_reg(x, vx & vy), b, PcOp::Next))
    } else if n == 0x3 {
        Ok((c.set_reg(x, vx ^ vy), b, PcOp::Next))
    } else if n == 0x4 {
        Ok((c.set_reg_flag(x, add_wrapped(vx, vy), carry(vx, vy)), b, PcOp::Next))
    } else if n == 0x5 {
        Ok((c.set_reg_flag(x, sub_wrapped(vx, vy), no_borrow(vx, vy)), b, PcOp::Next))
    } else if n == 0x6 {
        Ok((c.set_reg_flag(x, vx / 2, vx % 2), b, PcOp::Next))
    } else if n == 0x7 {
        Ok((c.set_reg_flag(x, sub_wrapped(vy, vx), no_borrow(vy, vx)), b, PcOp::Next))
    } else if n == 0xE {
        Ok((c.set_reg_flag(x, ((vx * 2) % 256) as u8, vx / 128), b, PcOp::Next))
    } else {
        Err(Chip8Error::UnknownInstruction(ins))
    }
}

/// The opcodes `EXNN`: skips on the state of the key named by `VX`.
pub open spec fn exec_key(c: CpuModel, b: BusModel, ins: u16) -> Result<
    (CpuModel, BusModel, PcOp),
    Chip8Error,
> {
    let vx = c.regs[x_of(ins)];
    let nn = nn_of(ins);
    if nn != 0x9E && nn != 0xA1 {
        Err(Chip8Error::UnknownInstruction(ins))
    } else if vx >= KEY_COUNT {
        Err(Chip8Error::InvalidKey)
    } else if b.keys[vx as int] == (nn == 0x9E) {
        Ok((c, b, PcOp::Skip))
    } else {
        Ok((c, b, PcOp::Next))
    }
}

/// The opcodes `FXNN`: timers, key wait, the address register and memory
/// transfers.
pub open spec fn exec_misc(c: CpuModel, b: BusModel, ins: u16) -> Result<
    (CpuModel, BusModel, PcOp),
    Chip8Error,
> {
    let x = x_of(ins);
    let vx = c.regs[x];
    let nn = nn_of(ins);
    if nn == 0x07 {
        Ok((c.set_reg(x, (b.delay / TIMER_UNIT as int) as u8), b, PcOp::Next))
    } else if nn == 0x0A {
        if exists|k: int| lowest_key(b.keys, k) {
            let k = choose|k: int| lowest_key(b.keys, k);
            Ok((c.set_reg(x, k as u8), b, PcOp::Next))
        } else {
            Ok((c, b, PcOp::Halt))
        }
    } else if nn == 0x15 {
        Ok((c, BusModel { delay: vx * TIMER_UNIT, ..b }, PcOp::Next))
    } else if nn == 0x18 {
        Ok((c, BusModel { sound: vx * TIMER_UNIT, ..b }, PcOp::Next))
    } else if nn == 0x1E {
        Ok((c.set_i((c.i + vx) % 0x10000), b, PcOp::Next))
    } else if nn == 0x29 {
        Ok((c.set_i(vx * GLYPH_SIZE), b, PcOp::Next))
    } else if nn == 0x33 {
        if writable(c.i) && writable(c.i + 2) {
            Ok((c.set_memory(stored_bcd(c.memory, c.i, vx)), b, PcOp::Next))
        } else {
            Err(Chip8Error::AddressOutOfRange)
        }
    } else if nn == 0x55 {
        if writable(c.i) && writable(c.i + x) {
            Ok((c.set_memory(stored_block(c.memory, c.i, c.regs, x)), b, PcOp::Next))
        } else {
            Err(Chip8Error::AddressOutOfRange)
        }
    } else if nn == 0x65 {
        if c.i + x < MEMORY_SIZE {
            Ok(
                (
                    CpuModel { regs: loaded_block(c.regs, c.memory, c.i, x), ..c },
                    b,
                    PcOp::Next,
                ),
            )
        } else {
            Err(Chip8Error::AddressOutOfRange)
        }
    } else {
        Err(Chip8Error::UnknownInstruction(ins))
    }
}

/// What one instruction does: the new processor and bus state and how the
/// program counter moves, or the fatal error, in which case nothing
/// changes. `random` is the byte that `CXNN` masks.
pub open spec fn execute_spec(c: CpuModel, b: BusModel, ins: u16, random: u8) -> Result<
    (CpuModel, BusModel, PcOp),
    Chip8Error,
> {
    let op = op_of(ins);
    let x = x_of(ins);
    let vx = c.regs[x];
    let vy = c.regs[y_of(ins)];
    let n = n_of(ins);
    let nn = nn_of(ins);
    let nnn = nnn_of(ins);
    if op == 0x0 {
        exec_system(c, b, ins)
    } else if op == 0x1 {
        Ok((c, b, PcOp::Jump(nnn as usize)))
    } else if op == 0x2 {
        if c.memory.sp == STACK_LIMIT {
            Err(Chip8Error::StackOverflow)
        } else {
            Ok((c.set_memory(c.memory.push(c.pc + 2)), b, PcOp::Jump(nnn as usize)))
        }
    } else if op == 0x3 {
        Ok((c, b, if vx == nn { PcOp::Skip } else { PcOp::Next }))
    } else if op == 0x4 {
        Ok((c, b, if vx != nn { PcOp::Skip } else { PcOp::Next }))
    } else if op == 0x5 && n == 0 {
        Ok((c, b, if vx == vy { PcOp::Skip } else { PcOp::Next }))
    } else if op == 0x6 {
        Ok((c.set_reg(x, nn), b, PcOp::Next))
    } else if op == 0x7 {
        Ok((c.set_reg(x, add_wrapped(vx, nn)), b, PcOp::Next))
    } else if op == 0x8 {
        exec_alu(c, b, ins)
    } else if op == 0x9 && n == 0 {
        Ok((c, b, if vx != vy { PcOp::Skip } else { PcOp::Next }))
    } else if op == 0xA {
        Ok((c.set_i(nnn), b, PcOp::Next))
    } else if op == 0xB {
        Ok((c, b, PcOp::Jump((c.regs[0] + nnn) as usize)))
    } else if op == 0xC {
        Ok((c.set_reg(x, random & nn), b, PcOp::Next))
    } else if op == 0xD {
        if c.i + n <= MEMORY_SIZE {
            let sprite = sprite_at(c.memory, c.i, n);
            Ok(
                (
                    c.set_reg(0xF, if collides(b.display, sprite, vx as int, vy as int) {
                        1
                    } else {
                        0
                    }),
                    b.with_display(drawn(b.display, sprite, vx as int, vy as int)),
                    PcOp::Next,
                ),
            )
        } else {
            Err(Chip8Error::AddressOutOfRange)
        }
    } else if op == 0xE {
        exec_key(c, b, ins)
    } else if op == 0xF {
        exec_misc(c, b, ins)
    } else {
        Err(Chip8Error::UnknownInstruction(ins))
    }
}

/// The program counter after an instruction at `pc` moved it by `op`.
pub open spec fn advance(pc: int, op: PcOp) -> int {
    match op {
        PcOp::Next => pc + 2,
        PcOp::Skip => pc + 4,
        PcOp::Jump(a) => a as int,
        PcOp::Halt => pc,
    }
}

/// One machine cycle: fetch the instruction at the program counter, run it,
/// and move the program counter. On an error nothing changes.
pub open spec fn tick_spec(c: CpuModel, b: BusModel, random: u8) -> Result<
    (CpuModel, BusModel),
    Chip8Error,
> {
    if c.pc + 1 >= MEMORY_SIZE {
        Err(Chip8Error::AddressOutOfRange)
    } else {
        match execute_spec(c, b, c.memory.word_at(c.pc) as u16, random) {
            Ok((c2, b2, op)) => Ok((c2.set_pc(advance(c.pc, op)), b2)),
            Err(e) => Err(e),
        }
    }
}

/// `r` and the states after an instruction agree with `outcome`, the
/// instruction's meaning: its result on success, and on an error that
/// error with both states untouched.
pub open spec fn applied(
    c0: CpuModel,
    b0: BusModel,
    c1: CpuModel,
    b1: BusModel,
    r: Result<PcOp, Chip8Error>,
    outcome: Result<(CpuModel, BusModel, PcOp), Chip8Error>,
) -> bool {
    match outcome {
        Ok((c, b, op)) => r == Ok::<PcOp, Chip8Error>(op) && c1 == c && b1 == b,
        Err(e) => r == Err::<PcOp, Chip8Error>(e) && c1 == c0 && b1 == b0,
    }
}

/// `r` and the states after a tick agree with `tick_spec`.
pub open spec fn ticked(
    c0: CpuModel,
    b0: BusModel,
    c1: CpuModel,
    b1: BusModel,
    r: Result<(), Chip8Error>,
    random: u8,
) -> bool {
    match tick_spec(c0, b0, random) {
        Ok((c, b)) => r is Ok && c1 == c && b1 == b,
        Err(e) => r == Err::<(), Chip8Error>(e) && c1 == c0 && b1 == b0,
    }
}

} // verus!
