use vstd::prelude::*;

use crate::bus::{Bus, KEY_COUNT};
use crate::error::Chip8Error;
use crate::instruction::{
    applied, exec_alu, exec_key, exec_misc, exec_system, execute_spec, loaded_block, op_of,
    stored_block, ticked, CpuModel, PcOp,
};
use crate::memory::{initial_memory, Memory, FONT_SIZE, MAX_ROM_SIZE, MEMORY_SIZE, USER_OFFSET};

verus! {

/// Number of general registers; the last one doubles as the flag.
pub const REG_COUNT: usize = 16;

/// The processor state right after loading `rom`.
pub open spec fn initial_cpu(rom: Seq<u8>) -> CpuModel {
    CpuModel {
        pc: USER_OFFSET as int,
        regs: Seq::new(REG_COUNT as nat, |k: int| 0u8),
        i: 0,
        memory: initial_memory(rom),
    }
}

/// The CHIP-8 processor: program counter, registers, address register and
/// the memory it owns. Each `tick` runs one instruction against a borrowed
/// `Bus`.
pub struct Cpu {
    pc: usize,
    reg: [u8; REG_COUNT],
    memory: Memory,
    i: u16,
}

impl View for Cpu {
    type V = CpuModel;

    closed spec fn view(&self) -> CpuModel {
        CpuModel { pc: self.pc as int, regs: self.reg@, i: self.i as int, memory: self.memory@ }
    }
}

impl Cpu {
    /// A processor about to run `rom` from the start of the user region; a
    /// ROM longer than the user region is refused.
    pub fn new(rom: &Vec<u8>) -> (r: Result<Cpu, Chip8Error>)
        ensures
            rom@.len() > MAX_ROM_SIZE ==> r == Err::<Cpu, Chip8Error>(Chip8Error::RomTooLarge),
            rom@.len() <= MAX_ROM_SIZE ==> r is Ok && r->Ok_0@ == initial_cpu(rom@),
    {
        let memory = match Memory::new(rom) {
            Ok(m) => m,
            Err(e) => return Err(e),
        };
        let cpu = Cpu { pc: USER_OFFSET, reg: [0u8; REG_COUNT], memory, i: 0 };
        assert(cpu@.regs =~= Seq::new(REG_COUNT as nat, |k: int| 0u8));
        Ok(cpu)
    }

    /// Runs the instruction at the program counter and moves the program
    /// counter. `random` is the byte that the random-number instruction
    /// masks. On an error neither the processor nor the bus changes.
    pub fn tick(&mut self, bus: &mut Bus, random: u8) -> (r: Result<(), Chip8Error>)
        ensures
            ticked(old(self)@, old(bus)@, final(self)@, final(bus)@, r, random),
    {
        let instruction = match self.memory.read_instruction(self.pc) {
            Ok(instruction) => instruction,
            Err(e) => return Err(e),
        };
        let op = match self.execute(instruction, bus, random) {
            Ok(op) => op,
            Err(e) => return Err(e),
        };
        match op {
            PcOp::Next => self.pc = self.pc + 2,
            PcOp::Skip => self.pc = self.pc + 4,
            PcOp::Jump(addr) => self.pc = addr,
            PcOp::Halt => {},
        }
        Ok(())
    }

    /// The program counter.
    pub fn pc(&self) -> (r: usize)
        ensures
            r == self@.pc,
    {
        self.pc
    }

    /// General register `x`.
    pub fn register(&self, x: usize) -> (r: u8)
        requires
            x < REG_COUNT,
        ensures
            r == self@.regs[x as int],
    {
        self.reg[x]
    }

    /// The address register `I`.
    pub fn index_register(&self) -> (r: u16)
        ensures
            r == self@.i,
    {
        self.i
    }

    /// The memory this processor owns.
    pub fn memory(&self) -> (r: &Memory)
        ensures
            r@ == self@.memory,
    {
        &self.memory
    }

    fn execute(&mut self, instruction: u16, bus: &mut Bus, random: u8) -> (r: Result<
        PcOp,
        Chip8Error,
    >)
        requires
            old(self)@.pc + 1 < MEMORY_SIZE,
        ensures
            applied(
                old(self)@,
                old(bus)@,
                final(self)@,
                final(bus)@,
                r,
                execute_spec(old(self)@, old(bus)@, instruction, random),
            ),
    {
        proof {
            use_type_invariant(&self.memory);
        }
        let op = instruction / 0x1000;
        let x = ((instruction / 0x100) % 16) as usize;
        let y = ((instruction / 0x10) % 16) as usize;
        let n = instruction % 16;
        let nn = (instruction % 0x100) as u8;
        let nnn = instruction % 0x1000;
        let vx = self.reg[x];
        let vy = self.reg[y];
        if op == 0x0 {
            return self.execute_system(instruction, bus);
        } else if op == 0x1 {
            return Ok(PcOp::Jump(nnn as usize));
        } else if op == 0x2 {
            // Return to the instruction after this one.
            return match self.memory.push_stack(self.pc + 2) {
                Ok(()) => Ok(PcOp::Jump(nnn as usize)),
                Err(e) => Err(e),
            };
        } else if op == 0x3 {
            if vx == nn {
                return Ok(PcOp::Skip);
            }
        } else if op == 0x4 {
            if vx != nn {
                return Ok(PcOp::Skip);
            }
        } else if op == 0x5 && n == 0 {
            if vx == vy {
                return Ok(PcOp::Skip);
            }
        } else if op == 0x6 {
            self.reg[x] = nn;
        } else if op == 0x7 {
            self.reg[x] = ((vx as u16 + nn as u16) % 256) as u8;
        } else if op == 0x8 {
            return self.execute_alu(instruction, bus);
        } else if op == 0x9 && n == 0 {
            if vx != vy {
                return Ok(PcOp::Skip);
            }
        } else if op == 0xA {
            self.i = nnn;
        } else if op == 0xB {
            return Ok(PcOp::Jump(self.reg[0] as usize + nnn as usize));
        } else if op == 0xC {
            self.reg[x] = random & nn;
        } else if op == 0xD {
            match bus.draw_display(&self.memory, self.i as usize, (vx as usize, vy as usize), n as usize) {
                Ok(collided) => self.reg[0xF] = if collided {
                    1
                } else {
                    0
                },
                Err(e) => return Err(e),
            }
        } else if op == 0xE {
            return self.execute_key(instruction, bus);
        } else if op == 0xF {
            return self.execute_misc(instruction, bus);
        } else {
            return Err(Chip8Error::UnknownInstruction(instruction));
        }
        Ok(PcOp::Next)
    }

    /// `00E0`, `00EE` and the refused `0NNN`.
    fn execute_system(&mut self, instruction: u16, bus: &mut Bus) -> (r: Result<PcOp, Chip8Error>)
        requires
            op_of(instruction) == 0x0,
        ensures
            applied(
                old(self)@,
                old(bus)@,
                final(self)@,
                final(bus)@,
                r,
                exec_system(old(self)@, old(bus)@, instruction),
            ),
    {
        proof {
            use_type_invariant(&self.memory);
        }
        if instruction == 0x00E0 {
            bus.clear_display();
            Ok(PcOp::Next)
        } else if instruction == 0x00EE {
            match self.memory.pop_stack() {
                Ok(addr) => Ok(PcOp::Jump(addr)),
                Err(e) => Err(e),
            }
        } else {
            Err(Chip8Error::NativeCall(instruction))
        }
    }

    /// `8XYN`: copy, logic and arithmetic between registers.
    fn execute_alu(&mut self, instruction: u16, bus: &mut Bus) -> (r: Result<PcOp, Chip8Error>)
        requires
            op_of(instruction) == 0x8,
        ensures
            applied(
                old(self)@,
                old(bus)@,
                final(self)@,
                final(bus)@,
                r,
                exec_alu(old(self)@, old(bus)@, instruction),
            ),
    {
        let x = ((instruction / 0x100) % 16) as usize;
        let y = ((instruction / 0x10) % 16) as usize;
        let n = instruction % 16;
        let vx = self.reg[x];
        let vy = self.reg[y];
        if n == 0x0 {
            self.reg[x] = vy;
        } else if n == 0x1 {
            self.reg[x] = vx | vy;
        } else if n == 0x2 {
            self.reg[x] = vx & vy;
        } else if n == 0x3 {
            self.reg[x] = vx ^ vy;
        } else if n == 0x4 {
            let sum = vx as u16 + vy as u16;
            self.reg[x] = (sum % 256) as u8;
            self.reg[0xF] = if sum > 255 {
                1
            } else {
                0
            };
        } else if n == 0x5 {
            self.reg[x] = if vx >= vy {
                vx - vy
            } else {
                (vx as u16 + 256 - vy as u16) as u8
            };
            self.reg[0xF] = if vx >= vy {
                1
            } else {
                0
            };
        } else if n == 0x6 {
            self.reg[x] = vx / 2;
            self.reg[0xF] = vx % 2;
        } else if n == 0x7 {
            self.reg[x] = if vy >= vx {
                vy - vx
            } else {
                (vy as u16 + 256 - vx as u16) as u8
            };
            self.reg[0xF] = if vy >= vx {
                1
            } else {
                0
            };
        } else if n == 0xE {
            self.reg[x] = ((vx as u16 * 2) % 256) as u8;
            self.reg[0xF] = vx / 128;
        } else {
            return Err(Chip8Error::UnknownInstruction(instruction));
        }
        Ok(PcOp::Next)
    }

    /// `EX9E` and `EXA1`: skips on the key named by `VX`.
    fn execute_key(&mut self, instruction: u16, bus: &mut Bus) -> (r: Result<PcOp, Chip8Error>)
        requires
            op_of(instruction) == 0xE,
        ensures
            applied(
                old(self)@,
                old(bus)@,
                final(self)@,
                final(bus)@,
                r,
                exec_key(old(self)@, old(bus)@, instruction),
            ),
    {
        let x = ((instruction / 0x100) % 16) as usize;
        let nn = instruction % 0x100;
        let vx = self.reg[x];
        if nn != 0x9E && nn != 0xA1 {
            return Err(Chip8Error::UnknownInstruction(instruction));
        }
        if vx as usize >= KEY_COUNT {
            return Err(Chip8Error::InvalidKey);
        }
        if bus.check_key(vx) == (nn == 0x9E) {
            Ok(PcOp::Skip)
        } else {
            Ok(PcOp::Next)
        }
    }

    /// `FXNN`: timers, key wait, the address register and memory
    /// transfers.
    fn execute_misc(&mut self, instruction: u16, bus: &mut Bus) -> (r: Result<PcOp, Chip8Error>)
        requires
            op_of(instruction) == 0xF,
        ensures
            applied(
                old(self)@,
                old(bus)@,
                final(self)@,
                final(bus)@,
                r,
                exec_misc(old(self)@, old(bus)@, instruction),
            ),
    {
        proof {
            use_type_invariant(&self.memory);
            use_type_invariant(&*bus);
        }
        let x = ((instruction / 0x100) % 16) as usize;
        let nn = instruction % 0x100;
        let vx = self.reg[x];
        let i = self.i as usize;
        if nn == 0x07 {
            self.reg[x] = bus.delay_timer();
        } else if nn == 0x0A {
            // Polled on every tick until a key is down.
            match bus.any_key() {
                Some(key) => {
                    proof {
                        lemma_lowest_key_unique(bus@.keys, key as int);
                    }
                    self.reg[x] = key;
                },
                None => {
                    proof {
                        assert forall|k: int| !crate::bus::lowest_key(bus@.keys, k) by {
                            if 0 <= k < KEY_COUNT {
                                assert(!bus@.keys[k]);
                            }
                        }
                    }
                    return Ok(PcOp::Halt);
                },
            }
        } else if nn == 0x15 {
            bus.set_delay_timer(vx);
        } else if nn == 0x18 {
            bus.set_sound_timer(vx);
        } else if nn == 0x1E {
            self.i = ((self.i as u32 + vx as u32) % 0x10000) as u16;
        } else if nn == 0x29 {
            self.i = vx as u16 * 5;
        } else if nn == 0x33 {
            if i < FONT_SIZE || i + 2 >= MEMORY_SIZE {
                return Err(Chip8Error::AddressOutOfRange);
            }
            self.memory.store(i, vx / 100);
            self.memory.store(i + 1, (vx / 10) % 10);
            self.memory.store(i + 2, vx % 10);
        } else if nn == 0x55 {
            if i < FONT_SIZE || i + x >= MEMORY_SIZE {
                return Err(Chip8Error::AddressOutOfRange);
            }
            let ghost before = self.memory@;
            assert(self.memory@.bytes =~= stored_block(before, i as int, self.reg@, -1).bytes);
            let mut pos: usize = 0;
            while pos <= x
                invariant
                    x < REG_COUNT,
                    pos <= x + 1,
                    FONT_SIZE <= i,
                    i + x < MEMORY_SIZE,
                    i == old(self)@.i,
                    before == old(self)@.memory,
                    before.bytes.len() == MEMORY_SIZE,
                    self.pc == old(self).pc,
                    self.i == old(self).i,
                    self.reg@ == old(self)@.regs,
                    self.memory@ == stored_block(before, i as int, self.reg@, pos - 1),
                decreases x + 1 - pos,
            {
                self.memory.store(i + pos, self.reg[pos]);
                assert(self.memory@.bytes =~= stored_block(before, i as int, self.reg@, pos as int).bytes);
                pos = pos + 1;
            }
        } else if nn == 0x65 {
            if i + x >= MEMORY_SIZE {
                return Err(Chip8Error::AddressOutOfRange);
            }
            let ghost before = self.reg@;
            assert(self.reg@ =~= loaded_block(before, self.memory@, i as int, -1));
            let mut pos: usize = 0;
            while pos <= x
                invariant
                    x < REG_COUNT,
                    pos <= x + 1,
                    i + x < MEMORY_SIZE,
                    i == old(self)@.i,
                    before == old(self)@.regs,
                    self.memory@.bytes.len() == MEMORY_SIZE,
                    self.pc == old(self).pc,
                    self.i == old(self).i,
                    self.memory@ == old(self)@.memory,
                    self.reg@ == loaded_block(before, self.memory@, i as int, pos - 1),
                decreases x + 1 - pos,
            {
                self.reg[pos] = self.memory.data()[i + pos];
                assert(self.reg@ =~= loaded_block(before, self.memory@, i as int, pos as int));
                pos = pos + 1;
            }
        } else {
            return Err(Chip8Error::UnknownInstruction(instruction));
        }
        Ok(PcOp::Next)
    }
}

/// Only one key can be the lowest key that is down.
proof fn lemma_lowest_key_unique(keys: Seq<bool>, k: int)
    requires
        crate::bus::lowest_key(keys, k),
    ensures
        (choose|j: int| crate::bus::lowest_key(keys, j)) == k,
{
    let j = choose|j: int| crate::bus::lowest_key(keys, j);
    assert(crate::bus::lowest_key(keys, j));
    if j < k {
        assert(!keys[j]);
    } else if j > k {
        assert(!keys[k]);
    }
}

} // verus!
