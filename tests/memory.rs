use rust8::memory::{FONT, MAX_ROM_SIZE, USER_OFFSET};
use rust8::{Chip8Error, Memory};

#[test]
fn new_memory_holds_font_and_rom() {
    let memory = Memory::new(&vec![0xAB, 0xCD, 0xEF]).unwrap();
    let data = memory.data();
    assert_eq!(&data[0..80], &FONT[..]);
    assert_eq!(&data[0x32..0x37], &[0xF0, 0x90, 0xF0, 0x90, 0x90]);
    assert_eq!(&data[USER_OFFSET..USER_OFFSET + 4], &[0xAB, 0xCD, 0xEF, 0x00]);
    assert!(data[80..USER_OFFSET].iter().all(|b| *b == 0));
}

#[test]
fn memory_rejects_oversized_rom() {
    assert_eq!(Memory::new(&vec![1u8; MAX_ROM_SIZE + 1]).err(), Some(Chip8Error::RomTooLarge));
    let full = Memory::new(&vec![1u8; MAX_ROM_SIZE]).unwrap();
    assert_eq!(full.data()[0xFFF], 1);
}

#[test]
fn read_instruction_is_big_endian() {
    let memory = Memory::new(&vec![0x12, 0x34]).unwrap();
    assert_eq!(memory.read_instruction(0x200), Ok(0x1234));
    assert_eq!(memory.read_instruction(0xFFE), Ok(0x0000));
    assert_eq!(memory.read_instruction(0xFFF), Err(Chip8Error::AddressOutOfRange));
}

#[test]
fn stack_push_pop_round_trip() {
    let mut memory = Memory::new(&vec![]).unwrap();
    memory.push_stack(0x202).unwrap();
    memory.push_stack(0x3AC).unwrap();
    assert_eq!(&memory.data()[0x50..0x54], &[0x02, 0x02, 0x03, 0xAC]);
    assert_eq!(memory.pop_stack(), Ok(0x3AC));
    assert_eq!(memory.pop_stack(), Ok(0x202));
    assert_eq!(memory.pop_stack(), Err(Chip8Error::StackUnderflow));
}

#[test]
fn stack_holds_sixteen_addresses() {
    let mut memory = Memory::new(&vec![]).unwrap();
    for k in 0..16 {
        assert_eq!(memory.push_stack(0x200 + 2 * k), Ok(()));
    }
    assert_eq!(memory.push_stack(0x400), Err(Chip8Error::StackOverflow));
    for k in (0..16).rev() {
        assert_eq!(memory.pop_stack(), Ok(0x200 + 2 * k));
    }
}

#[test]
fn store_writes_one_byte() {
    let mut memory = Memory::new(&vec![]).unwrap();
    memory.store(0x300, 7);
    assert_eq!(memory.data()[0x300], 7);
    assert_eq!(memory.data()[0x301], 0);
}
