use vstd::prelude::*;

use crate::error::Chip8Error;

verus! {

/// Size of the whole address space, in bytes.
pub const MEMORY_SIZE: usize = 0x1000;

/// Where the built-in font glyphs start.
pub const FONT_OFFSET: usize = 0x0;

/// Bytes taken by one glyph: five rows of eight pixels.
pub const GLYPH_SIZE: usize = 5;

/// Bytes taken by the sixteen glyphs `0`-`F`.
pub const FONT_SIZE: usize = 80;

/// First byte of the call stack region.
pub const STACK_OFFSET: usize = 0x50;

/// One past the last byte of the call stack region: sixteen two-byte slots.
pub const STACK_LIMIT: usize = 0x70;

/// Where a program is loaded and where execution starts.
pub const USER_OFFSET: usize = 0x200;

/// The largest ROM that fits in the user region.
pub const MAX_ROM_SIZE: usize = MEMORY_SIZE - USER_OFFSET;

/// The glyphs of the hexadecimal digits, one byte per 8-pixel row.
pub const FONT: [u8; 80] = [
    0xF0, 0x90, 0x90, 0x90, 0xF0, // 0
    0x20, 0x60, 0x20, 0x20, 0x70, // 1
    0xF0, 0x10, 0xF0, 0x80, 0xF0, // 2
    0xF0, 0x10, 0xF0, 0x10, 0xF0, // 3
    0x90, 0x90, 0xF0, 0x10, 0x10, // 4
    0xF0, 0x80, 0xF0, 0x10, 0xF0, // 5
    0xF0, 0x80, 0xF0, 0x90, 0xF0, // 6
    0xF0, 0x10, 0x20, 0x40, 0x40, // 7
    0xF0, 0x90, 0xF0, 0x90, 0xF0, // 8
    0xF0, 0x90, 0xF0, 0x10, 0xF0, // 9
    0xF0, 0x90, 0xF0, 0x90, 0x90, // A
    0xE0, 0x90, 0xE0, 0x90, 0xE0, // B
    0xF0, 0x80, 0x80, 0x80, 0xF0, // C
    0xE0, 0x90, 0x90, 0x90, 0xE0, // D
    0xF0, 0x80, 0xF0, 0x80, 0xF0, // E
    0xF0, 0x80, 0xF0, 0x80, 0x80, // F
];

/// The abstract state of memory: the byte image and the stack pointer.
pub struct MemoryModel {
    pub bytes: Seq<u8>,
    pub sp: int,
}

impl MemoryModel {
    /// The byte image has the full size, the stack pointer sits on a slot
    /// boundary inside the stack region, and the font table is intact.
    pub open spec fn wf(self) -> bool {
        &&& self.bytes.len() == MEMORY_SIZE
        &&& STACK_OFFSET <= self.sp <= STACK_LIMIT
        &&& (self.sp - STACK_OFFSET) % 2 == 0
        &&& self.bytes.subrange(FONT_OFFSET as int, FONT_SIZE as int) == FONT@
    }

    /// Number of return addresses on the stack.
    pub open spec fn depth(self) -> int {
        (self.sp - STACK_OFFSET) / 2
    }

    /// The big-endian 16-bit word at `a` and `a + 1`.
    pub open spec fn word_at(self, a: int) -> int {
        self.bytes[a] * 256 + self.bytes[a + 1]
    }

    /// `address` pushed as two big-endian bytes.
    pub open spec fn push(self, address: int) -> MemoryModel {
        MemoryModel {
            bytes: self.bytes.update(self.sp, ((address / 256) % 256) as u8).update(
                self.sp + 1,
                (address % 256) as u8,
            ),
            sp: self.sp + 2,
        }
    }

    /// The top slot dropped; the bytes are left as they were.
    pub open spec fn pop(self) -> MemoryModel {
        MemoryModel { bytes: self.bytes, sp: self.sp - 2 }
    }

    /// The byte at `a` replaced by `value`.
    pub open spec fn store(self, a: int, value: u8) -> MemoryModel {
        MemoryModel { bytes: self.bytes.update(a, value), sp: self.sp }
    }
}

/// Programs may write anywhere but into the font table.
pub open spec fn writable(a: int) -> bool {
    FONT_SIZE <= a < MEMORY_SIZE
}

/// The memory image right after loading `rom`: the font at the bottom, the
/// ROM at the start of the user region, zero elsewhere.
pub open spec fn initial_bytes(rom: Seq<u8>) -> Seq<u8> {
    Seq::new(
        MEMORY_SIZE as nat,
        |a: int|
            if a < FONT_SIZE {
                FONT@[a]
            } else if USER_OFFSET <= a < USER_OFFSET + rom.len() {
                rom[a - USER_OFFSET]
            } else {
                0u8
            },
    )
}

/// The memory model right after loading `rom`, with an empty stack.
pub open spec fn initial_memory(rom: Seq<u8>) -> MemoryModel {
    MemoryModel { bytes: initial_bytes(rom), sp: STACK_OFFSET as int }
}

/// A write above the font table leaves the font table as it was.
proof fn lemma_update_keeps_font(bytes: Seq<u8>, a: int, value: u8)
    requires
        bytes.len() == MEMORY_SIZE,
        bytes.subrange(FONT_OFFSET as int, FONT_SIZE as int) == FONT@,
        FONT_SIZE <= a < MEMORY_SIZE,
    ensures
        bytes.update(a, value).subrange(FONT_OFFSET as int, FONT_SIZE as int) == FONT@,
{
    assert(bytes.update(a, value).subrange(FONT_OFFSET as int, FONT_SIZE as int) =~= bytes.subrange(
        FONT_OFFSET as int,
        FONT_SIZE as int,
    ));
}

/// The 4096-byte address space with the font table and the call stack.
pub struct Memory {
    memory: [u8; 4096],
    stack_pointer: usize,
}

impl View for Memory {
    type V = MemoryModel;

    closed spec fn view(&self) -> MemoryModel {
        MemoryModel { bytes: self.memory@, sp: self.stack_pointer as int }
    }
}

impl Memory {
    /// Holds of every `Memory` value.
    #[verifier::type_invariant]
    pub open spec fn inv(&self) -> bool {
        self@.wf()
    }

    /// Memory with the font table written and `rom` copied to the user
    /// region; a ROM longer than the user region is refused.
    pub fn new(rom: &Vec<u8>) -> (r: Result<Memory, Chip8Error>)
        ensures
            rom@.len() > MAX_ROM_SIZE ==> r == Err::<Memory, Chip8Error>(Chip8Error::RomTooLarge),
            rom@.len() <= MAX_ROM_SIZE ==> r is Ok && r->Ok_0@ == initial_memory(rom@),
    {
        if rom.len() > MAX_ROM_SIZE {
            return Err(Chip8Error::RomTooLarge);
        }
        let mut memory: [u8; 4096] = [0u8; 4096];
        let mut i: usize = 0;
        while i < FONT_SIZE
            invariant
                i <= FONT_SIZE,
                forall|a: int| 0 <= a < i ==> memory@[a] == FONT@[a],
                forall|a: int| i <= a < MEMORY_SIZE ==> memory@[a] == 0,
            decreases FONT_SIZE - i,
        {
            memory[i] = FONT[i];
            i = i + 1;
        }
        let mut j: usize = 0;
        while j < rom.len()
            invariant
                rom@.len() <= MAX_ROM_SIZE,
                j <= rom@.len(),
                forall|a: int| 0 <= a < FONT_SIZE ==> memory@[a] == FONT@[a],
                forall|a: int|
                    USER_OFFSET <= a < USER_OFFSET + j ==> memory@[a] == rom@[a - USER_OFFSET],
                forall|a: int|
                    FONT_SIZE <= a < MEMORY_SIZE && !(USER_OFFSET <= a < USER_OFFSET + j)
                        ==> memory@[a] == 0,
            decreases rom@.len() - j,
        {
            memory[USER_OFFSET + j] = rom[j];
            j = j + 1;
        }
        assert(memory@ =~= initial_bytes(rom@));
        assert(memory@.subrange(FONT_OFFSET as int, FONT_SIZE as int) =~= FONT@);
        Ok(Memory { memory, stack_pointer: STACK_OFFSET })
    }

    /// Pushes `address` as two big-endian bytes; refused when all sixteen
    /// slots are in use.
    pub fn push_stack(&mut self, address: usize) -> (r: Result<(), Chip8Error>)
        ensures
            old(self)@.sp == STACK_LIMIT ==> r == Err::<(), Chip8Error>(Chip8Error::StackOverflow)
                && final(self)@ == old(self)@,
            old(self)@.sp < STACK_LIMIT ==> r is Ok && final(self)@ == old(self)@.push(
                address as int,
            ),
    {
        proof {
            use_type_invariant(&*self);
        }
        if self.stack_pointer >= STACK_LIMIT {
            return Err(Chip8Error::StackOverflow);
        }
        let sp = self.stack_pointer;
        let high = ((address / 256) % 256) as u8;
        let low = (address % 256) as u8;
        proof {
            lemma_update_keeps_font(self@.bytes, sp as int, high);
            lemma_update_keeps_font(self@.bytes.update(sp as int, high), sp + 1, low);
        }
        self.memory[sp] = high;
        self.memory[sp + 1] = low;
        self.stack_pointer = sp + 2;
        Ok(())
    }

    /// Pops the most recent return address; refused on an empty stack.
    pub fn pop_stack(&mut self) -> (r: Result<usize, Chip8Error>)
        ensures
            old(self)@.sp == STACK_OFFSET ==> r == Err::<usize, Chip8Error>(
                Chip8Error::StackUnderflow,
            ) && final(self)@ == old(self)@,
            old(self)@.sp > STACK_OFFSET ==> r is Ok && r->Ok_0 == old(self)@.word_at(
                old(self)@.sp - 2,
            ) && final(self)@ == old(self)@.pop(),
    {
        proof {
            use_type_invariant(&*self);
        }
        if self.stack_pointer <= STACK_OFFSET {
            return Err(Chip8Error::StackUnderflow);
        }
        let sp = self.stack_pointer - 2;
        self.stack_pointer = sp;
        let high_byte = self.memory[sp] as usize;
        let low_byte = self.memory[sp + 1] as usize;
        Ok(high_byte * 256 + low_byte)
    }

    /// The big-endian instruction word at `pc` and `pc + 1`.
    pub fn read_instruction(&self, pc: usize) -> (r: Result<u16, Chip8Error>)
        ensures
            pc + 1 >= MEMORY_SIZE ==> r == Err::<u16, Chip8Error>(Chip8Error::AddressOutOfRange),
            pc + 1 < MEMORY_SIZE ==> r is Ok && r->Ok_0 == self@.word_at(pc as int),
    {
        if pc >= MEMORY_SIZE - 1 {
            return Err(Chip8Error::AddressOutOfRange);
        }
        Ok((self.memory[pc] as u16) * 256 + self.memory[pc + 1] as u16)
    }

    /// The whole byte image, for reading.
    pub fn data(&self) -> (r: &[u8; 4096])
        ensures
            r@ == self@.bytes,
    {
        &self.memory
    }

    /// Writes one byte outside the font table.
    pub fn store(&mut self, address: usize, value: u8)
        requires
            writable(address as int),
        ensures
            final(self)@ == old(self)@.store(address as int, value),
    {
        proof {
            use_type_invariant(&*self);
        }
        proof {
            lemma_update_keeps_font(self@.bytes, address as int, value);
        }
        self.memory[address] = value;
    }
}

} // verus!
