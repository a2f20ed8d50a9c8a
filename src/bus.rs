use vstd::prelude::*;

use crate::error::Chip8Error;
use crate::memory::{Memory, MemoryModel, MEMORY_SIZE};

verus! {

/// Height of the framebuffer, in pixels.
pub const WINDOW_HEIGHT: usize = 32;

/// Width of the framebuffer, in pixels.
pub const WINDOW_WIDTH: usize = 64;

/// Number of keypad lines.
pub const KEY_COUNT: usize = 16;

/// Number of framebuffer cells.
pub const PIXEL_COUNT: usize = WINDOW_WIDTH * WINDOW_HEIGHT;

/// Timers count down at this many ticks per second.
pub const TIMER_FREQUENCY: u64 = 60;

/// Timers are held in billionths of a tick, so that a countdown driven by
/// elapsed nanoseconds is exact.
pub const TIMER_UNIT: u64 = 1_000_000_000;

/// The largest value a timer can hold, in timer units.
pub const TIMER_MAX: u64 = 255 * TIMER_UNIT;

/// The abstract state of the bus.
pub struct BusModel {
    /// Row-major framebuffer: cell `y * 64 + x` is pixel `(x, y)`.
    pub display: Seq<bool>,
    /// The keypad latch.
    pub keys: Seq<bool>,
    /// Delay timer, in timer units.
    pub delay: int,
    /// Sound timer, in timer units.
    pub sound: int,
}

impl BusModel {
    /// Full-size framebuffer and keypad, timers within their 8-bit range.
    pub open spec fn wf(self) -> bool {
        &&& self.display.len() == PIXEL_COUNT
        &&& self.keys.len() == KEY_COUNT
        &&& 0 <= self.delay <= TIMER_MAX
        &&& 0 <= self.sound <= TIMER_MAX
    }

    /// The same bus with another framebuffer.
    pub open spec fn with_display(self, display: Seq<bool>) -> BusModel {
        BusModel { display, ..self }
    }
}

/// Bit `col` of a sprite row, counted from the most significant bit, which
/// is the leftmost pixel.
pub open spec fn sprite_bit(row: u8, col: int) -> bool {
    (row >> ((7 - col) as u8)) & 1u8 == 1u8
}

/// Column of the sprite that covers column `px` of the screen when the
/// sprite is drawn at column `x`, wrapping at the right edge.
pub open spec fn sprite_col(x: int, px: int) -> int {
    (px - x) % (WINDOW_WIDTH as int)
}

/// Row of the sprite that covers row `py` of the screen when the sprite is
/// drawn at row `y`, wrapping at the bottom edge.
pub open spec fn sprite_row(y: int, py: int) -> int {
    (py - y) % (WINDOW_HEIGHT as int)
}

/// Whether drawing `sprite` at `(x, y)` flips framebuffer cell `i`: the cell
/// lies under the sprite and the sprite's bit there is set.
pub open spec fn toggled(sprite: Seq<u8>, x: int, y: int, i: int) -> bool {
    let c = sprite_col(x, i % (WINDOW_WIDTH as int));
    let r = sprite_row(y, i / (WINDOW_WIDTH as int));
    c < 8 && r < sprite.len() && sprite_bit(sprite[r], c)
}

/// The framebuffer after XOR-ing `sprite` into it at `(x, y)`.
pub open spec fn drawn(display: Seq<bool>, sprite: Seq<u8>, x: int, y: int) -> Seq<bool> {
    Seq::new(display.len(), |i: int| display[i] != toggled(sprite, x, y, i))
}

/// Whether drawing `sprite` at `(x, y)` turns some set pixel off.
pub open spec fn collides(display: Seq<bool>, sprite: Seq<u8>, x: int, y: int) -> bool {
    exists|i: int| 0 <= i < display.len() && display[i] && #[trigger] toggled(sprite, x, y, i)
}

/// The `height` sprite rows stored from `offset` on.
pub open spec fn sprite_at(memory: MemoryModel, offset: int, height: int) -> Seq<u8> {
    memory.bytes.subrange(offset, offset + height)
}

/// `toggled`, counting only the sprite cells that come before cell
/// `(dx, dy)` in row-major order.
spec fn toggled_before(sprite: Seq<u8>, x: int, y: int, i: int, dy: int, dx: int) -> bool {
    let c = sprite_col(x, i % (WINDOW_WIDTH as int));
    let r = sprite_row(y, i / (WINDOW_WIDTH as int));
    c < 8 && r < sprite.len() && (r < dy || (r == dy && c < dx)) && sprite_bit(sprite[r], c)
}

/// A timer after `dt_nanos` nanoseconds of countdown, stopped at zero.
pub open spec fn decayed(timer: int, dt_nanos: int) -> int {
    if timer > dt_nanos * TIMER_FREQUENCY {
        timer - dt_nanos * TIMER_FREQUENCY
    } else {
        0
    }
}

/// Whether key `k` is the lowest-numbered key that is down.
pub open spec fn lowest_key(keys: Seq<bool>, k: int) -> bool {
    0 <= k < keys.len() && keys[k] && forall|j: int| 0 <= j < k ==> !keys[j]
}

/// The framebuffer, keypad latch and the two timers.
pub struct Bus {
    display: [bool; PIXEL_COUNT],
    keys: [bool; KEY_COUNT],
    delay_timer: u64,
    sound_timer: u64,
}

impl View for Bus {
    type V = BusModel;

    closed spec fn view(&self) -> BusModel {
        BusModel {
            display: self.display@,
            keys: self.keys@,
            delay: self.delay_timer as int,
            sound: self.sound_timer as int,
        }
    }
}

impl Bus {
    /// Holds of every `Bus` value.
    #[verifier::type_invariant]
    pub open spec fn inv(&self) -> bool {
        self@.wf()
    }

    /// A blank screen, no key down, both timers at zero.
    pub fn new() -> (r: Bus)
        ensures
            r@.display == Seq::new(PIXEL_COUNT as nat, |i: int| false),
            r@.keys == Seq::new(KEY_COUNT as nat, |i: int| false),
            r@.delay == 0,
            r@.sound == 0,
    {
        let r = Bus {
            display: [false; PIXEL_COUNT],
            keys: [false; KEY_COUNT],
            delay_timer: 0,
            sound_timer: 0,
        };
        assert(r@.display =~= Seq::new(PIXEL_COUNT as nat, |i: int| false));
        assert(r@.keys =~= Seq::new(KEY_COUNT as nat, |i: int| false));
        r
    }

    /// The framebuffer, row-major.
    pub fn display(&self) -> (r: &[bool; PIXEL_COUNT])
        ensures
            r@ == self@.display,
    {
        &self.display
    }

    /// XORs the `height` sprite rows stored at `memory_offset` into the
    /// framebuffer at `position`, wrapping at the edges, and tells whether a
    /// set pixel was turned off. Sprite rows past the end of memory are
    /// refused and leave the framebuffer as it was.
    pub fn draw_display(
        &mut self,
        memory: &Memory,
        memory_offset: usize,
        position: (usize, usize),
        height: usize,
    ) -> (r: Result<bool, Chip8Error>)
        requires
            height <= WINDOW_HEIGHT,
        ensures
            memory_offset + height > MEMORY_SIZE ==> r == Err::<bool, Chip8Error>(
                Chip8Error::AddressOutOfRange,
            ) && final(self)@ == old(self)@,
            memory_offset + height <= MEMORY_SIZE ==> ({
                let sprite = sprite_at(memory@, memory_offset as int, height as int);
                &&& r == Ok::<bool, Chip8Error>(
                    collides(old(self)@.display, sprite, position.0 as int, position.1 as int),
                )
                &&& final(self)@ == old(self)@.with_display(
                    drawn(old(self)@.display, sprite, position.0 as int, position.1 as int),
                )
            }),
    {
        proof {
            use_type_invariant(&*self);
            use_type_invariant(memory);
        }
        if memory_offset > MEMORY_SIZE - height {
            return Err(Chip8Error::AddressOutOfRange);
        }
        let ghost old_display = self@.display;
        let ghost sprite = sprite_at(memory@, memory_offset as int, height as int);
        assert(sprite.len() == height);
        let ghost x = position.0 as int;
        let ghost y = position.1 as int;
        let x0 = position.0 % WINDOW_WIDTH;
        let y0 = position.1 % WINDOW_HEIGHT;
        let mut flipped = false;
        let mut dy: usize = 0;
        while dy < height
            invariant
                0 <= dy <= height <= WINDOW_HEIGHT,
                memory_offset + height <= MEMORY_SIZE,
                sprite == sprite_at(memory@, memory_offset as int, height as int),
                sprite.len() == height,
                x0 == x % 64,
                y0 == y % 32,
                x >= 0,
                y >= 0,
                self@.wf(),
                old_display.len() == PIXEL_COUNT,
                self@.keys == old(self)@.keys,
                self@.delay == old(self)@.delay,
                self@.sound == old(self)@.sound,
                forall|i: int|
                    0 <= i < PIXEL_COUNT ==> #[trigger] self@.display[i] == (old_display[i]
                        != toggled_before(sprite, x, y, i, dy as int, 0)),
                flipped == exists|i: int|
                    0 <= i < PIXEL_COUNT && old_display[i] && #[trigger] toggled_before(
                        sprite,
                        x,
                        y,
                        i,
                        dy as int,
                        0,
                    ),
            decreases height - dy,
        {
            let byte: u8 = memory.data()[memory_offset + dy];
            let mut dx: usize = 0;
            while dx < 8
                invariant
                    0 <= dy < height <= WINDOW_HEIGHT,
                    0 <= dx <= 8,
                    memory_offset + height <= MEMORY_SIZE,
                    sprite == sprite_at(memory@, memory_offset as int, height as int),
                    sprite.len() == height,
                    byte == sprite[dy as int],
                    x0 == x % 64,
                    y0 == y % 32,
                    x >= 0,
                    y >= 0,
                    self@.wf(),
                    old_display.len() == PIXEL_COUNT,
                    self@.keys == old(self)@.keys,
                    self@.delay == old(self)@.delay,
                    self@.sound == old(self)@.sound,
                    forall|i: int|
                        0 <= i < PIXEL_COUNT ==> #[trigger] self@.display[i] == (old_display[i]
                            != toggled_before(sprite, x, y, i, dy as int, dx as int)),
                    flipped == exists|i: int|
                        0 <= i < PIXEL_COUNT && old_display[i] && #[trigger] toggled_before(
                            sprite,
                            x,
                            y,
                            i,
                            dy as int,
                            dx as int,
                        ),
                decreases 8 - dx,
            {
                let px = (x0 + dx) % WINDOW_WIDTH;
                let py = (y0 + dy) % WINDOW_HEIGHT;
                let index = py * WINDOW_WIDTH + px;
                proof {
                    lemma_pixel_of(x, y, dx as int, dy as int);
                    assert forall|i: int| 0 <= i < PIXEL_COUNT implies toggled_before(
                        sprite,
                        x,
                        y,
                        i,
                        dy as int,
                        dx as int + 1,
                    ) == (toggled_before(sprite, x, y, i, dy as int, dx as int) || (i == index
                        && sprite_bit(byte, dx as int))) by {
                        lemma_cell_of(x, y, i);
                    }
                }
                let ghost flipped_before = flipped;
                assert(!toggled_before(sprite, x, y, index as int, dy as int, dx as int));
                assert(self@.display[index as int] == old_display[index as int]);
                let ghost cell_before = self@.display[index as int];
                if (byte >> ((7 - dx) as u8)) & 1u8 == 1u8 {
                    flipped = flipped || self.display[index];
                    self.display[index] = !self.display[index];
                }
                proof {
                    if flipped {
                        if !flipped_before {
                            assert(old_display[index as int] && toggled_before(
                                sprite,
                                x,
                                y,
                                index as int,
                                dy as int,
                                dx as int + 1,
                            ));
                        }
                    } else {
                        assert forall|i: int|
                            0 <= i < PIXEL_COUNT && old_display[i] implies !#[trigger] toggled_before(
                            sprite,
                            x,
                            y,
                            i,
                            dy as int,
                            dx as int + 1,
                        ) by {
                            assert(!toggled_before(sprite, x, y, i, dy as int, dx as int));
                            if i == index && sprite_bit(byte, dx as int) {
                                assert(sprite_bit(byte, dx as int) == ((byte >> ((7 - dx) as u8))
                                    & 1u8 == 1u8));
                                assert(!cell_before);
                            }
                        }
                    }
                }
                dx = dx + 1;
            }
            proof {
                assert forall|i: int| 0 <= i < PIXEL_COUNT implies toggled_before(
                    sprite,
                    x,
                    y,
                    i,
                    dy as int + 1,
                    0,
                ) == toggled_before(sprite, x, y, i, dy as int, 8) by {
                    lemma_cell_of(x, y, i);
                }
                if flipped {
                    let i = choose|i: int|
                        0 <= i < PIXEL_COUNT && old_display[i] && #[trigger] toggled_before(
                            sprite,
                            x,
                            y,
                            i,
                            dy as int,
                            8,
                        );
                    assert(toggled_before(sprite, x, y, i, dy as int + 1, 0));
                }
                if exists|i: int|
                    0 <= i < PIXEL_COUNT && old_display[i] && #[trigger] toggled_before(
                        sprite,
                        x,
                        y,
                        i,
                        dy as int + 1,
                        0,
                    ) {
                    let i = choose|i: int|
                        0 <= i < PIXEL_COUNT && old_display[i] && #[trigger] toggled_before(
                            sprite,
                            x,
                            y,
                            i,
                            dy as int + 1,
                            0,
                        );
                    assert(toggled_before(sprite, x, y, i, dy as int, 8));
                }
            }
            dy = dy + 1;
        }
        proof {
            assert forall|i: int| 0 <= i < PIXEL_COUNT implies toggled_before(
                sprite,
                x,
                y,
                i,
                dy as int,
                0,
            ) == toggled(sprite, x, y, i) by {
                lemma_cell_of(x, y, i);
            }
            assert(self@.display =~= drawn(old_display, sprite, x, y));
            if collides(old_display, sprite, x, y) {
                let i = choose|i: int|
                    0 <= i < old_display.len() && old_display[i] && #[trigger] toggled(
                        sprite,
                        x,
                        y,
                        i,
                    );
                assert(toggled_before(sprite, x, y, i, dy as int, 0));
            }
            if flipped {
                let i = choose|i: int|
                    0 <= i < PIXEL_COUNT && old_display[i] && #[trigger] toggled_before(
                        sprite,
                        x,
                        y,
                        i,
                        dy as int,
                        0,
                    );
                assert(toggled(sprite, x, y, i));
            }
        }
        Ok(flipped)
    }

    /// Turns every pixel off.
    pub fn clear_display(&mut self)
        ensures
            final(self)@ == old(self)@.with_display(Seq::new(PIXEL_COUNT as nat, |i: int| false)),
    {
        proof {
            use_type_invariant(&*self);
        }
        let mut i: usize = 0;
        while i < PIXEL_COUNT
            invariant
                i <= PIXEL_COUNT,
                self@.wf(),
                self@.keys == old(self)@.keys,
                self@.delay == old(self)@.delay,
                self@.sound == old(self)@.sound,
                forall|j: int| 0 <= j < i ==> !self@.display[j],
            decreases PIXEL_COUNT - i,
        {
            self.display[i] = false;
            i = i + 1;
        }
        assert(self@.display =~= Seq::new(PIXEL_COUNT as nat, |i: int| false));
    }

    /// The lowest-numbered key that is down, if any.
    pub fn any_key(&self) -> (r: Option<u8>)
        ensures
            r matches Some(k) ==> lowest_key(self@.keys, k as int),
            r is None <==> forall|j: int| 0 <= j < KEY_COUNT ==> !self@.keys[j],
    {
        proof {
            use_type_invariant(self);
        }
        let mut k: usize = 0;
        while k < KEY_COUNT
            invariant
                k <= KEY_COUNT,
                self@.wf(),
                forall|j: int| 0 <= j < k ==> !self@.keys[j],
            decreases KEY_COUNT - k,
        {
            if self.keys[k] {
                return Some(k as u8);
            }
            k = k + 1;
        }
        None
    }

    /// Whether key `key` is down.
    pub fn check_key(&self, key: u8) -> (r: bool)
        requires
            key < KEY_COUNT,
        ensures
            r == self@.keys[key as int],
    {
        self.keys[key as usize]
    }

    /// Latches key `key` down.
    pub fn set_key(&mut self, key: usize)
        requires
            key < KEY_COUNT,
        ensures
            final(self)@ == (BusModel { keys: old(self)@.keys.update(key as int, true), ..old(self)@ }),
    {
        proof {
            use_type_invariant(&*self);
        }
        self.keys[key] = true;
    }

    /// Releases key `key`.
    pub fn clear_key(&mut self, key: usize)
        requires
            key < KEY_COUNT,
        ensures
            final(self)@ == (BusModel { keys: old(self)@.keys.update(key as int, false), ..old(self)@ }),
    {
        proof {
            use_type_invariant(&*self);
        }
        self.keys[key] = false;
    }

    /// The delay timer in whole ticks, the fraction dropped.
    pub fn delay_timer(&self) -> (r: u8)
        ensures
            r == self@.delay / TIMER_UNIT as int,
    {
        proof {
            use_type_invariant(self);
        }
        (self.delay_timer / TIMER_UNIT) as u8
    }

    /// Loads the delay timer with `duration` ticks.
    pub fn set_delay_timer(&mut self, duration: u8)
        ensures
            final(self)@ == (BusModel { delay: duration * TIMER_UNIT, ..old(self)@ }),
    {
        proof {
            use_type_invariant(&*self);
        }
        self.delay_timer = duration as u64 * TIMER_UNIT;
    }

    /// Whether the sound timer is still running.
    pub fn sound_active(&self) -> (r: bool)
        ensures
            r == (self@.sound > 0),
    {
        self.sound_timer > 0
    }

    /// Loads the sound timer with `duration` ticks.
    pub fn set_sound_timer(&mut self, duration: u8)
        ensures
            final(self)@ == (BusModel { sound: duration * TIMER_UNIT, ..old(self)@ }),
    {
        proof {
            use_type_invariant(&*self);
        }
        self.sound_timer = duration as u64 * TIMER_UNIT;
    }

    /// Counts both timers down by `dt_nanos` nanoseconds of wall-clock
    /// time at sixty ticks a second, stopping at zero.
    pub fn update_timers(&mut self, dt_nanos: u64)
        ensures
            final(self)@ == (BusModel {
                delay: decayed(old(self)@.delay, dt_nanos as int),
                sound: decayed(old(self)@.sound, dt_nanos as int),
                ..old(self)@
            }),
    {
        proof {
            use_type_invariant(&*self);
        }
        let elapsed: u64 = if dt_nanos > u64::MAX / TIMER_FREQUENCY {
            u64::MAX
        } else {
            dt_nanos * TIMER_FREQUENCY
        };
        self.delay_timer = if self.delay_timer > elapsed {
            self.delay_timer - elapsed
        } else {
            0
        };
        self.sound_timer = if self.sound_timer > elapsed {
            self.sound_timer - elapsed
        } else {
            0
        };
    }

    /// Blank screen, no key down, both timers at zero: the state a new
    /// program starts from.
    pub fn reset(&mut self)
        ensures
            final(self)@.display == Seq::new(PIXEL_COUNT as nat, |i: int| false),
            final(self)@.keys == Seq::new(KEY_COUNT as nat, |i: int| false),
            final(self)@.delay == 0,
            final(self)@.sound == 0,
    {
        self.clear_display();
        self.set_delay_timer(0);
        self.set_sound_timer(0);
        let mut key: usize = 0;
        while key < KEY_COUNT
            invariant
                key <= KEY_COUNT,
                self@.keys.len() == KEY_COUNT,
                self@.display == Seq::new(PIXEL_COUNT as nat, |i: int| false),
                self@.delay == 0,
                self@.sound == 0,
                forall|j: int| 0 <= j < key ==> !self@.keys[j],
            decreases KEY_COUNT - key,
        {
            self.clear_key(key);
            key = key + 1;
        }
        assert(self@.keys =~= Seq::new(KEY_COUNT as nat, |i: int| false));
    }
}

/// Where the sprite cell `(dx, dy)` lands when the sprite is drawn at
/// `(x, y)`, and that the cell maps back to `(dx, dy)`.
pub(crate) proof fn lemma_pixel_of(x: int, y: int, dx: int, dy: int)
    requires
        0 <= x,
        0 <= y,
        0 <= dx < 8,
        0 <= dy < WINDOW_HEIGHT,
    ensures
        ({
            let px = (x % 64 + dx) % 64;
            let py = (y % 32 + dy) % 32;
            let i = py * 64 + px;
            &&& 0 <= i < PIXEL_COUNT
            &&& i % 64 == px
            &&& i / 64 == py
            &&& sprite_col(x, px) == dx
            &&& sprite_row(y, py) == dy
        }),
{
    let px = (x % 64 + dx) % 64;
    let py = (y % 32 + dy) % 32;
    assert(0 <= px < 64 && 0 <= py < 32);
    assert((py * 64 + px) % 64 == px && (py * 64 + px) / 64 == py) by (nonlinear_arith)
        requires
            0 <= px < 64,
            0 <= py < 32,
    ;
    assert((px - x) % 64 == dx) by (nonlinear_arith)
        requires
            px == (x % 64 + dx) % 64,
            0 <= dx < 8,
            0 <= x,
    ;
    assert((py - y) % 32 == dy) by (nonlinear_arith)
        requires
            py == (y % 32 + dy) % 32,
            0 <= dy < 32,
            0 <= y,
    ;
}

/// Every framebuffer cell is the landing place of the sprite cell that
/// `sprite_col` and `sprite_row` give for it.
pub(crate) proof fn lemma_cell_of(x: int, y: int, i: int)
    requires
        0 <= x,
        0 <= y,
        0 <= i < PIXEL_COUNT,
    ensures
        ({
            let c = sprite_col(x, i % 64);
            let r = sprite_row(y, i / 64);
            &&& 0 <= c < 64
            &&& 0 <= r < 32
            &&& i == ((y % 32 + r) % 32) * 64 + (x % 64 + c) % 64
        }),
{
    let c = (i % 64 - x) % 64;
    let r = (i / 64 - y) % 32;
    assert((x % 64 + c) % 64 == i % 64) by (nonlinear_arith)
        requires
            c == (i % 64 - x) % 64,
            0 <= x,
            0 <= i,
    ;
    assert((y % 32 + r) % 32 == i / 64) by (nonlinear_arith)
        requires
            r == (i / 64 - y) % 32,
            0 <= y,
            0 <= i < 2048,
    ;
    assert(i == (i / 64) * 64 + i % 64) by (nonlinear_arith);
}

} // verus!
