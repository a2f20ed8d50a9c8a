use vstd::prelude::*;

use crate::bus::{decayed, Bus, BusModel, KEY_COUNT, PIXEL_COUNT, WINDOW_HEIGHT, WINDOW_WIDTH};
use crate::cpu::{initial_cpu, Cpu};
use crate::error::Chip8Error;
use crate::instruction::{tick_spec, CpuModel};
use crate::memory::MAX_ROM_SIZE;

verus! {

/// The abstract state of a machine: its bus and, once a ROM is loaded, its
/// processor.
pub struct Chip8Model {
    pub bus: BusModel,
    pub cpu: Option<CpuModel>,
}

/// A whole machine for a host that drives it by calls: load a ROM, tick,
/// count the timers down and read pixels.
pub struct Chip8 {
    bus: Bus,
    cpu: Option<Cpu>,
}

impl View for Chip8 {
    type V = Chip8Model;

    closed spec fn view(&self) -> Chip8Model {
        Chip8Model {
            bus: self.bus@,
            cpu: match self.cpu {
                Some(c) => Some(c@),
                None => None,
            },
        }
    }
}

impl Chip8 {
    /// A machine with a blank screen and no program.
    pub fn new() -> (r: Chip8)
        ensures
            r@.bus.display == Seq::new(PIXEL_COUNT as nat, |i: int| false),
            r@.bus.keys == Seq::new(KEY_COUNT as nat, |i: int| false),
            r@.bus.delay == 0,
            r@.bus.sound == 0,
            r@.cpu is None,
    {
        Chip8 { bus: Bus::new(), cpu: None }
    }

    /// Whether pixel `(x, y)` is set.
    pub fn check_pixel(&self, x: usize, y: usize) -> (r: bool)
        requires
            x < WINDOW_WIDTH,
            y < WINDOW_HEIGHT,
        ensures
            r == self@.bus.display[y * WINDOW_WIDTH + x],
    {
        self.bus.display()[y * WINDOW_WIDTH + x]
    }

    /// Replaces the program with `rom`, started afresh. A ROM longer than the
    /// user region is refused and the machine is left as it was.
    pub fn load(&mut self, rom: Vec<u8>) -> (r: Result<(), Chip8Error>)
        ensures
            rom@.len() > MAX_ROM_SIZE ==> r == Err::<(), Chip8Error>(Chip8Error::RomTooLarge)
                && final(self)@ == old(self)@,
            rom@.len() <= MAX_ROM_SIZE ==> r is Ok && final(self)@ == (Chip8Model {
                bus: old(self)@.bus,
                cpu: Some(initial_cpu(rom@)),
            }),
    {
        match Cpu::new(&rom) {
            Ok(cpu) => {
                self.cpu = Some(cpu);
                Ok(())
            },
            Err(e) => Err(e),
        }
    }

    /// Counts the timers down by `dt_nanos` nanoseconds.
    pub fn update(&mut self, dt_nanos: u64)
        ensures
            final(self)@ == (Chip8Model {
                bus: BusModel {
                    delay: decayed(old(self)@.bus.delay, dt_nanos as int),
                    sound: decayed(old(self)@.bus.sound, dt_nanos as int),
                    ..old(self)@.bus
                },
                cpu: old(self)@.cpu,
            }),
    {
        self.bus.update_timers(dt_nanos);
    }

    /// Runs one instruction of the loaded program; without a program it
    /// does nothing. On an error nothing changes.
    pub fn tick(&mut self, random: u8) -> (r: Result<(), Chip8Error>)
        ensures
            old(self)@.cpu is None ==> r is Ok && final(self)@ == old(self)@,
            old(self)@.cpu matches Some(c) ==> match tick_spec(c, old(self)@.bus, random) {
                Ok((c2, b2)) => r is Ok && final(self)@ == (Chip8Model { bus: b2, cpu: Some(c2) }),
                Err(e) => r == Err::<(), Chip8Error>(e) && final(self)@ == old(self)@,
            },
    {
        match &mut self.cpu {
            Some(cpu) => cpu.tick(&mut self.bus, random),
            None => Ok(()),
        }
    }

    /// The bus, for the host to render the screen and poll the timers.
    pub fn bus(&self) -> (r: &Bus)
        ensures
            r@ == self@.bus,
    {
        &self.bus
    }
}

} // verus!
