use crate::disassembler::{decode, word_of, OpCode};
use crate::display::{blank, collides, drawn};
use crate::keyboard::KeyboardState;
use vstd::prelude::*;

verus! {

/// Number of bytes of memory.
pub const MEMORY_SIZE: usize = 4096;

/// The address at which a program is loaded and at which it starts.
pub const PROGRAM_OFFSET: usize = 512;

/// Number of return addresses that the stack holds.
pub const STACK_SIZE: usize = 16;

/// Number of general-purpose registers.
pub const REGISTER_COUNT: usize = 16;

/// The register that instructions use as carry, borrow and collision flag.
pub const FLAG_REGISTER: usize = 15;

/// Instructions executed in a second.
pub const CLOCK_FREQUENCY_HZ: u32 = 500;

/// Steps that the two timers count down in a second.
pub const TIMER_FREQUENCY_HZ: u32 = 60;

/// Milliseconds from one instruction to the next.
pub const CLOCK_PERIOD_MS: u128 = 1000 / 500;

/// Whole milliseconds from one step of the timers to the next.
pub const TIMER_PERIOD_MS: u128 = 1000 / 60;

/// Number of bytes in the sprite of one character.
pub const GLYPH_SIZE: usize = 5;

/// Why the machine cannot go on. A fault leaves the machine as it was.
#[derive(Debug, Clone, Copy, PartialEq, Eq, Structural)]
pub enum Fault {
    /// A call with a full stack.
    StackOverflow,
    /// A return with an empty stack.
    StackUnderflow,
    /// An instruction reads or writes memory from the index register on,
    /// and runs past the end of memory.
    AddressOutOfRange,
    /// The two bytes of the next instruction do not both lie in memory.
    FetchOutOfRange,
}

/// Why a program was not loaded.
#[derive(Debug, Clone, Copy, PartialEq, Eq, Structural)]
pub enum LoadError {
    /// The program has more bytes than memory has from the load address
    /// on.
    ProgramTooLarge,
}

/// The state of the machine as a mathematical value.
pub struct MachineState {
    /// Address of the next instruction.
    pub program_counter: int,
    /// The address register.
    pub index: u16,
    /// The return addresses of the calls that have not returned, the
    /// latest last.
    pub stack: Seq<u16>,
    pub memory: Seq<u8>,
    pub registers: Seq<u8>,
    pub delay_timer: u8,
    pub sound_timer: u8,
    /// The time from which the next instruction is due.
    pub next_tick: u128,
    /// The time from which the next step of the timers is due.
    pub next_timer_tick: u128,
    pub display: Seq<bool>,
    pub keyboard: KeyboardState,
}

/// The value of a flag in the flag register.
pub open spec fn flag_value(flag: bool) -> u8 {
    if flag {
        1
    } else {
        0
    }
}

/// A timer after one step: one less, but never below zero.
pub open spec fn counted_down(timer: u8) -> u8 {
    if timer > 0 {
        (timer - 1) as u8
    } else {
        0
    }
}

impl MachineState {
    /// The stack holds at most 16 return addresses, memory has 4096 bytes,
    /// there are 16 registers and 2048 pixels, the keypad is in order and
    /// the program counter is not negative.
    pub open spec fn well_formed(self) -> bool {
        &&& self.stack.len() <= STACK_SIZE
        &&& self.memory.len() == MEMORY_SIZE
        &&& self.registers.len() == REGISTER_COUNT
        &&& self.display.len() == crate::display::SIZE
        &&& self.keyboard.well_formed()
        &&& self.program_counter >= 0
    }

    /// The value of register `x`.
    pub open spec fn reg(self, x: u8) -> u8 {
        self.registers[x as int]
    }

    /// Whether the two bytes of the next instruction both lie in memory.
    pub open spec fn can_fetch(self) -> bool {
        0 <= self.program_counter && self.program_counter + 1 < MEMORY_SIZE
    }

    /// The instruction word at the program counter: two bytes, the high
    /// byte first.
    pub open spec fn current_word(self) -> u16 {
        word_of(self.memory[self.program_counter], self.memory[self.program_counter + 1])
    }

    /// The state with the program counter moved by `distance`.
    pub open spec fn moved(self, distance: int) -> MachineState {
        MachineState { program_counter: self.program_counter + distance, ..self }
    }

    /// The state with the program counter at `address`.
    pub open spec fn at(self, address: int) -> MachineState {
        MachineState { program_counter: address, ..self }
    }

    /// The state that skips the next instruction if `condition` holds.
    pub open spec fn skip_if(self, condition: bool) -> MachineState {
        if condition {
            self.moved(2)
        } else {
            self
        }
    }

    /// The state with `value` in register `x`.
    pub open spec fn with_register(self, x: u8, value: u8) -> MachineState {
        MachineState { registers: self.registers.update(x as int, value), ..self }
    }

    /// The state with `value` in register `x` and then `flag` in the flag
    /// register: where `x` is the flag register, the flag is what it holds.
    pub open spec fn with_flagged(self, x: u8, value: u8, flag: bool) -> MachineState {
        MachineState {
            registers: self.registers.update(x as int, value).update(
                FLAG_REGISTER as int,
                flag_value(flag),
            ),
            ..self
        }
    }

    /// The state with the flag register holding `flag`.
    pub open spec fn with_flag(self, flag: bool) -> MachineState {
        MachineState {
            registers: self.registers.update(FLAG_REGISTER as int, flag_value(flag)),
            ..self
        }
    }

    /// The `count` bytes of memory from the index register on.
    pub open spec fn indexed_bytes(self, count: int) -> Seq<u8> {
        self.memory.subrange(self.index as int, self.index + count)
    }

    /// Whether `count` bytes from the index register on all lie in memory.
    pub open spec fn index_in_range(self, count: int) -> bool {
        self.index + count <= MEMORY_SIZE
    }

    /// The state after a sprite of `count` bytes, taken from memory at the
    /// index register, was drawn at `(col, row)`. The flag register tells
    /// whether a pixel was switched off. An anchor outside the grid draws
    /// nothing and reports no collision.
    pub open spec fn with_sprite(self, col: u8, row: u8, count: u8) -> MachineState {
        let bytes = self.indexed_bytes(count as int);
        if col < crate::display::WIDTH && row < crate::display::HEIGHT {
            MachineState {
                display: drawn(self.display, col as int, row as int, bytes),
                ..self
            }.with_flag(collides(self.display, col as int, row as int, bytes))
        } else {
            self.with_flag(false)
        }
    }

    /// The state after an instruction that waits for a key and stores it
    /// in register `x`, taken from the state with the program counter
    /// already past that instruction. The watch for a release is armed if
    /// it is not yet. Where a release is on record, its key goes to the
    /// register and the watch is disarmed; where none is, the program
    /// counter goes back to the instruction.
    pub open spec fn with_key_wait(self, x: u8) -> MachineState {
        let armed = if self.keyboard.tracking {
            self.keyboard
        } else {
            self.keyboard.track(true)
        };
        match armed.last_released {
            Some(key) => MachineState { keyboard: armed.track(false), ..self }.with_register(
                x,
                key,
            ),
            None => MachineState { keyboard: armed, ..self }.moved(-2),
        }
    }

    /// The state with the three decimal digits of `value` in memory at the
    /// index register, the hundreds first.
    pub open spec fn with_digits(self, value: u8) -> MachineState {
        MachineState {
            memory: self.memory.update(self.index as int, (value / 100) as u8).update(
                self.index + 1,
                ((value / 10) % 10) as u8,
            ).update(self.index + 2, (value % 10) as u8),
            ..self
        }
    }

    /// The state with the first `count` registers copied to memory from
    /// the index register on.
    pub open spec fn with_dump_upto(self, count: int) -> MachineState {
        MachineState {
            memory: Seq::new(
                self.memory.len(),
                |a: int|
                    if self.index <= a < self.index + count {
                        self.registers[a - self.index]
                    } else {
                        self.memory[a]
                    },
            ),
            ..self
        }
    }

    /// The state with registers 0 to `x`, `x` included, copied to memory
    /// from the index register on.
    pub open spec fn with_dump(self, x: u8) -> MachineState {
        self.with_dump_upto(x + 1)
    }

    /// The state with the first `count` registers filled from memory at the
    /// index register.
    pub open spec fn with_load_upto(self, count: int) -> MachineState {
        MachineState {
            registers: Seq::new(
                self.registers.len(),
                |i: int|
                    if i < count {
                        self.memory[self.index + i]
                    } else {
                        self.registers[i]
                    },
            ),
            ..self
        }
    }

    /// The state with registers 0 to `x`, `x` included, filled from memory
    /// at the index register.
    pub open spec fn with_load(self, x: u8) -> MachineState {
        self.with_load_upto(x + 1)
    }

    /// What an operation does to the state in which the program counter
    /// has already moved past the operation's instruction. `random` is the
    /// byte that chance gives; only `Rand` uses it.
    pub open spec fn apply(self, op: OpCode, random: u8) -> Result<MachineState, Fault> {
        match op {
            OpCode::ClearDisplay => Ok(MachineState { display: blank(), ..self }),
            OpCode::Return => if self.stack.len() == 0 {
                Err(Fault::StackUnderflow)
            } else {
                Ok(
                    MachineState {
                        program_counter: self.stack.last() as int,
                        stack: self.stack.drop_last(),
                        ..self
                    },
                )
            },
            OpCode::Jump(addr) => Ok(self.at(addr as int)),
            OpCode::Call(addr) => if self.stack.len() >= STACK_SIZE {
                Err(Fault::StackOverflow)
            } else {
                Ok(
                    MachineState {
                        program_counter: addr as int,
                        stack: self.stack.push(self.program_counter as u16),
                        ..self
                    },
                )
            },
            OpCode::SkipEqVal(x, val) => Ok(self.skip_if(self.reg(x) == val)),
            OpCode::SkipNotEqVal(x, val) => Ok(self.skip_if(self.reg(x) != val)),
            OpCode::SkipEq(x, y) => Ok(self.skip_if(self.reg(x) == self.reg(y))),
            OpCode::SetVal(x, val) => Ok(self.with_register(x, val)),
            OpCode::AddVal(x, val) => Ok(
                self.with_register(x, ((self.reg(x) + val) % 256) as u8),
            ),
            OpCode::Copy(x, y) => Ok(self.with_register(x, self.reg(y))),
            OpCode::Or(x, y) => Ok(self.with_register(x, self.reg(x) | self.reg(y))),
            OpCode::And(x, y) => Ok(self.with_register(x, self.reg(x) & self.reg(y))),
            OpCode::Xor(x, y) => Ok(self.with_register(x, self.reg(x) ^ self.reg(y))),
            OpCode::Add(x, y) => Ok(
                self.with_flagged(
                    x,
                    ((self.reg(x) + self.reg(y)) % 256) as u8,
                    self.reg(x) + self.reg(y) > 255,
                ),
            ),
            OpCode::Subtract(x, y) => Ok(
                self.with_flagged(
                    x,
                    ((self.reg(x) - self.reg(y)) % 256) as u8,
                    self.reg(x) >= self.reg(y),
                ),
            ),
            OpCode::ShiftRight(x) => Ok(
                self.with_flagged(x, (self.reg(x) / 2) as u8, self.reg(x) % 2 == 1),
            ),
            OpCode::Difference(x, y) => Ok(
                self.with_flagged(
                    x,
                    ((self.reg(y) - self.reg(x)) % 256) as u8,
                    self.reg(y) >= self.reg(x),
                ),
            ),
            OpCode::ShiftLeft(x) => Ok(
                self.with_flagged(x, ((self.reg(x) * 2) % 256) as u8, self.reg(x) >= 128),
            ),
            OpCode::SkipNotEq(x, y) => Ok(self.skip_if(self.reg(x) != self.reg(y))),
            OpCode::SetIndex(addr) => Ok(MachineState { index: addr, ..self }),
            OpCode::JumpOffset(addr) => Ok(self.at(addr + self.reg(0))),
            OpCode::Rand(x, val) => Ok(self.with_register(x, random & val)),
            OpCode::DrawSprite(x, y, n) => if self.index_in_range(n as int) {
                Ok(self.with_sprite(self.reg(x), self.reg(y), n))
            } else {
                Err(Fault::AddressOutOfRange)
            },
            OpCode::SkipKeyPressed(x) => Ok(self.skip_if(self.keyboard.is_pressed(self.reg(x)))),
            OpCode::SkipKeyNotPressed(x) => Ok(
                self.skip_if(!self.keyboard.is_pressed(self.reg(x))),
            ),
            OpCode::GetDelayTimer(x) => Ok(self.with_register(x, self.delay_timer)),
            OpCode::GetKeyPress(x) => Ok(self.with_key_wait(x)),
            OpCode::SetDelayTimer(x) => Ok(MachineState { delay_timer: self.reg(x), ..self }),
            OpCode::SetSoundTimer(x) => Ok(MachineState { sound_timer: self.reg(x), ..self }),
            OpCode::AddIndex(x) => Ok(
                MachineState { index: ((self.index + self.reg(x)) % 0x10000) as u16, ..self },
            ),
            OpCode::SetIndexCharacter(x) => Ok(
                MachineState { index: (self.reg(x) * GLYPH_SIZE) as u16, ..self },
            ),
            OpCode::StoreBCD(x) => if self.index_in_range(3) {
                Ok(self.with_digits(self.reg(x)))
            } else {
                Err(Fault::AddressOutOfRange)
            },
            OpCode::RegDump(x) => if self.index_in_range(x + 1) {
                Ok(self.with_dump(x))
            } else {
                Err(Fault::AddressOutOfRange)
            },
            OpCode::RegLoad(x) => if self.index_in_range(x + 1) {
                Ok(self.with_load(x))
            } else {
                Err(Fault::AddressOutOfRange)
            },
        }
    }

    /// What one instruction cycle does: the word at the program counter is
    /// decoded and executed. A word that stands for no operation is passed
    /// over.
    pub open spec fn step(self, random: u8) -> Result<MachineState, Fault> {
        if self.can_fetch() {
            match decode(self.current_word()) {
                Some(op) => self.moved(2).apply(op, random),
                None => Ok(self.moved(2)),
            }
        } else {
            Err(Fault::FetchOutOfRange)
        }
    }

    /// Whether the next instruction cycle draws a byte by chance: whether
    /// the word at the program counter stands for `Rand`.
    pub open spec fn next_is_random(self) -> bool {
        self.can_fetch() && decode(self.current_word()) matches Some(OpCode::Rand(_, _))
    }

    /// Whether an instruction is due at time `now`.
    pub open spec fn instruction_due(self, now: u128) -> bool {
        self.next_tick <= now
    }

    /// Whether a step of the timers is due at time `now`.
    pub open spec fn timers_due(self, now: u128) -> bool {
        self.next_timer_tick <= now
    }

    /// The first half of a tick: if an instruction is due, one cycle, after
    /// which the next instruction is due one clock period after `now`.
    pub open spec fn clocked(self, now: u128, random: u8) -> Result<MachineState, Fault> {
        if self.instruction_due(now) {
            match self.step(random) {
                Ok(s) => Ok(MachineState { next_tick: (now + CLOCK_PERIOD_MS) as u128, ..s }),
                Err(fault) => Err(fault),
            }
        } else {
            Ok(self)
        }
    }

    /// The second half of a tick: if a step of the timers is due, both
    /// count down, and their next step is due one timer period after `now`.
    pub open spec fn timed(self, now: u128) -> MachineState {
        if self.timers_due(now) {
            MachineState {
                delay_timer: counted_down(self.delay_timer),
                sound_timer: counted_down(self.sound_timer),
                next_timer_tick: (now + TIMER_PERIOD_MS) as u128,
                ..self
            }
        } else {
            self
        }
    }

    /// What a tick at time `now` does: first the instruction clock, then
    /// the timer clock.
    pub open spec fn tick(self, now: u128, random: u8) -> Result<MachineState, Fault> {
        match self.clocked(now, random) {
            Ok(s) => Ok(s.timed(now)),
            Err(fault) => Err(fault),
        }
    }

    /// Whether a tick at time `now` leaves the tone sounding: whether the
    /// sound timer is running after the instruction and before the timers
    /// count down.
    pub open spec fn sounding(self, now: u128, random: u8) -> bool {
        match self.clocked(now, random) {
            Ok(s) => s.sound_timer > 0,
            Err(_) => false,
        }
    }
}

/// Whether a machine that was in state `before` has done what `expected`
/// says: on success it is in the new state, on a fault it reports the
/// fault and is in the state it was in.
pub open spec fn carried_out<T>(
    expected: Result<MachineState, Fault>,
    before: MachineState,
    after: MachineState,
    result: Result<T, Fault>,
) -> bool {
    match expected {
        Ok(s) => result is Ok && after == s,
        Err(fault) => result == Err::<T, Fault>(fault) && after == before,
    }
}

/// Whether a machine that was in state `before` has done what a tick says:
/// on success it is in the new state and reports whether the tone sounds,
/// on a fault it reports the fault and is in the state it was in.
pub open spec fn ticked(
    expected: Result<MachineState, Fault>,
    sounding: bool,
    before: MachineState,
    after: MachineState,
    result: Result<bool, Fault>,
) -> bool {
    match expected {
        Ok(s) => result == Ok::<bool, Fault>(sounding) && after == s,
        Err(fault) => result == Err::<bool, Fault>(fault) && after == before,
    }
}

/// Only `Rand` depends on the byte that chance gives.
pub proof fn lemma_chance_only_in_rand(s: MachineState, op: OpCode, random: u8, other: u8)
    requires
        !(op is Rand),
    ensures
        s.apply(op, random) == s.apply(op, other),
{
}

impl MachineState {
    /// The operation that the next instruction cycle carries out, if the
    /// word at the program counter stands for one.
    pub open spec fn next_op(self) -> Option<OpCode> {
        if self.can_fetch() {
            decode(self.current_word())
        } else {
            None
        }
    }
}

/// An operation keeps a state in order: the stack stays within its 16
/// places, and memory, registers and display keep their sizes.
pub proof fn lemma_apply_keeps_well_formed(s: MachineState, op: OpCode, random: u8)
    requires
        s.well_formed(),
        op.well_formed(),
        s.program_counter >= 2,
    ensures
        s.apply(op, random) matches Ok(t) ==> t.well_formed(),
{
}

/// An instruction cycle and a tick keep a state in order.
pub proof fn lemma_tick_keeps_well_formed(s: MachineState, now: u128, random: u8)
    requires
        s.well_formed(),
    ensures
        s.step(random) matches Ok(t) ==> t.well_formed(),
        s.tick(now, random) matches Ok(t) ==> t.well_formed(),
{
    if s.can_fetch() {
        crate::disassembler::lemma_decoded_is_well_formed(s.current_word());
        match decode(s.current_word()) {
            Some(op) => lemma_apply_keeps_well_formed(s.moved(2), op, random),
            None => {},
        }
    }
}

/// `Add` leaves the full sum in the register and the flag together: the
/// register holds its low eight bits and the flag is the carry. Where the
/// register is the flag register itself, it holds the carry.
pub proof fn lemma_add_sets_carry(s: MachineState, x: u8, y: u8, random: u8)
    requires
        s.well_formed(),
        x < 16,
        y < 16,
    ensures
        s.apply(OpCode::Add(x, y), random) matches Ok(t) && {
            &&& t.reg(15) == flag_value(s.reg(x) + s.reg(y) > 255)
            &&& x != 15 ==> t.reg(x) + 256 * t.reg(15) == s.reg(x) + s.reg(y)
        },
{
}

/// `Subtract` leaves the difference in the register and the flag together:
/// the register holds it in eight bits, and the flag is 1 exactly if
/// nothing was borrowed, 0 if the result wrapped round.
pub proof fn lemma_subtract_sets_no_borrow(s: MachineState, x: u8, y: u8, random: u8)
    requires
        s.well_formed(),
        x < 16,
        y < 16,
    ensures
        s.apply(OpCode::Subtract(x, y), random) matches Ok(t) && {
            &&& t.reg(15) == flag_value(s.reg(x) >= s.reg(y))
            &&& x != 15 ==> t.reg(x) - 256 * (1 - t.reg(15)) == s.reg(x) - s.reg(y)
        },
{
}

/// `Difference` is `Subtract` with the operands exchanged: the register
/// gets the other register minus itself.
pub proof fn lemma_difference_sets_no_borrow(s: MachineState, x: u8, y: u8, random: u8)
    requires
        s.well_formed(),
        x < 16,
        y < 16,
    ensures
        s.apply(OpCode::Difference(x, y), random) matches Ok(t) && {
            &&& t.reg(15) == flag_value(s.reg(y) >= s.reg(x))
            &&& x != 15 ==> t.reg(x) - 256 * (1 - t.reg(15)) == s.reg(y) - s.reg(x)
        },
{
}

/// After a shift the flag is the bit that was shifted out of the register,
/// whatever the result is: the lowest bit for a shift to the right, the
/// highest for a shift to the left. Register and flag together still hold
/// every bit of the old value.
pub proof fn lemma_shift_flag_is_lost_bit(s: MachineState, x: u8, random: u8)
    requires
        s.well_formed(),
        x < 16,
    ensures
        s.apply(OpCode::ShiftRight(x), random) matches Ok(t) && {
            &&& t.reg(15) == s.reg(x) % 2
            &&& x != 15 ==> t.reg(x) * 2 + t.reg(15) == s.reg(x)
        },
        s.apply(OpCode::ShiftLeft(x), random) matches Ok(t) && {
            &&& t.reg(15) == s.reg(x) / 128
            &&& x != 15 ==> t.reg(15) * 256 + t.reg(x) == s.reg(x) * 2
        },
{
}

/// `RegDump` and `RegLoad` reach register `x` itself: `x + 1` bytes are
/// copied, for registers 0 to `x`, and nothing else is touched.
pub proof fn lemma_dump_and_load_include_last(s: MachineState, x: u8, random: u8)
    requires
        s.well_formed(),
        x < 16,
        s.index_in_range(x + 1),
    ensures
        s.apply(OpCode::RegDump(x), random) matches Ok(t) && {
            &&& t.registers == s.registers
            &&& forall|i: int| 0 <= i <= x ==> #[trigger] t.memory[s.index + i] == s.registers[i]
            &&& forall|a: int|
                0 <= a < MEMORY_SIZE && !(s.index <= a <= s.index + x) ==> #[trigger] t.memory[a]
                    == s.memory[a]
        },
        s.apply(OpCode::RegLoad(x), random) matches Ok(t) && {
            &&& t.memory == s.memory
            &&& forall|i: int| 0 <= i <= x ==> #[trigger] t.registers[i] == s.memory[s.index + i]
            &&& forall|i: int| x < i < 16 ==> #[trigger] t.registers[i] == s.registers[i]
        },
{
}

/// Loading what was just dumped changes no register.
pub proof fn lemma_load_after_dump(s: MachineState, x: u8)
    requires
        s.well_formed(),
        x < 16,
        s.index_in_range(x + 1),
    ensures
        s.with_dump(x).with_load(x).registers == s.registers,
{
    assert(s.with_dump(x).with_load(x).registers =~= s.registers);
}

/// Waiting for a key holds the program counter at the instruction: as
/// long as no release is on record, an instruction cycle on `GetKeyPress`
/// leaves the program counter, the registers and memory as they were and
/// the watch for a release armed, so that the next cycle meets the same
/// instruction again.
pub proof fn lemma_key_wait_holds(s: MachineState, x: u8, random: u8)
    requires
        s.well_formed(),
        s.next_op() == Some(OpCode::GetKeyPress(x)),
        s.keyboard.last_released is None,
    ensures
        s.step(random) matches Ok(t) && {
            &&& t.program_counter == s.program_counter
            &&& t.registers == s.registers
            &&& t.memory == s.memory
            &&& t.keyboard.tracking
            &&& t.keyboard.last_released is None
            &&& t.keyboard.pressed == s.keyboard.pressed
            &&& t.next_op() == s.next_op()
        },
{
}

/// Waiting for a key ends with a release: once a release is on record, an
/// instruction cycle on `GetKeyPress` puts the released key in the
/// register, disarms the watch and leaves the program counter on the next
/// instruction.
pub proof fn lemma_key_wait_ends(s: MachineState, x: u8, key: u8, random: u8)
    requires
        s.well_formed(),
        s.next_op() == Some(OpCode::GetKeyPress(x)),
        s.keyboard.last_released == Some(key),
    ensures
        s.step(random) matches Ok(t) && {
            &&& t.program_counter == s.program_counter + 2
            &&& t.reg(x) == key
            &&& !t.keyboard.tracking
            &&& t.keyboard.last_released is None
        },
{
    crate::disassembler::lemma_decoded_is_well_formed(s.current_word());
}

/// From the first cycle on `GetKeyPress` to the release of a key: the
/// first cycle arms the watch and stays; the release of a key that is down
/// is put on record; the cycle after it stores that key and moves on.
pub proof fn lemma_key_wait_takes_release(s: MachineState, x: u8, key: u8, random: u8)
    requires
        s.well_formed(),
        s.next_op() == Some(OpCode::GetKeyPress(x)),
        s.keyboard.last_released is None,
        key < 16,
        s.keyboard.pressed[key as int],
    ensures
        s.step(random) matches Ok(waiting) && (MachineState {
            keyboard: waiting.keyboard.set_pressed(key, false),
            ..waiting
        }).step(random) matches Ok(done) && {
            &&& waiting.program_counter == s.program_counter
            &&& done.program_counter == s.program_counter + 2
            &&& done.reg(x) == key
            &&& !done.keyboard.tracking
        },
{
    crate::disassembler::lemma_decoded_is_well_formed(s.current_word());
    lemma_key_wait_holds(s, x, random);
    let waiting = s.step(random).unwrap();
    let released = MachineState { keyboard: waiting.keyboard.set_pressed(key, false), ..waiting };
    assert(released.next_op() == s.next_op());
    lemma_key_wait_ends(released, x, key, random);
}

/// No operation touches the deadlines of the two clocks, and none but
/// `SetDelayTimer` and `SetSoundTimer` touches the timer it sets.
pub proof fn lemma_apply_keeps_timers(s: MachineState, op: OpCode, random: u8)
    ensures
        s.apply(op, random) matches Ok(t) ==> {
            &&& t.next_tick == s.next_tick
            &&& t.next_timer_tick == s.next_timer_tick
            &&& !(op is SetDelayTimer) ==> t.delay_timer == s.delay_timer
            &&& !(op is SetSoundTimer) ==> t.sound_timer == s.sound_timer
        },
{
}

/// The timers run on their own clock. Whether a tick counts them down
/// depends on the time and on their own deadline alone, not on whether an
/// instruction was executed or which: a timer that the instruction did not
/// set is one less after a tick on which a step was due, but never below
/// zero, and unchanged after any other tick.
pub proof fn lemma_timers_run_independently(s: MachineState, now: u128, random: u8)
    requires
        s.well_formed(),
        now + TIMER_PERIOD_MS <= u128::MAX,
    ensures
        s.tick(now, random) matches Ok(t) ==> {
            &&& t.next_timer_tick == if s.timers_due(now) {
                (now + TIMER_PERIOD_MS) as u128
            } else {
                s.next_timer_tick
            }
            &&& !(s.instruction_due(now) && s.next_op() matches Some(OpCode::SetDelayTimer(_)))
                ==> t.delay_timer == if s.timers_due(now) {
                counted_down(s.delay_timer)
            } else {
                s.delay_timer
            }
            &&& !(s.instruction_due(now) && s.next_op() matches Some(OpCode::SetSoundTimer(_)))
                ==> t.sound_timer == if s.timers_due(now) {
                counted_down(s.sound_timer)
            } else {
                s.sound_timer
            }
        },
{
    if s.instruction_due(now) && s.can_fetch() {
        match decode(s.current_word()) {
            Some(op) => lemma_apply_keeps_timers(s.moved(2), op, random),
            None => {},
        }
    }
}

impl MachineState {
    /// The state after the first `count` of a series of ticks, the tick
    /// numbered `k` at time `times[k]` and with the byte `chances[k]`. The
    /// first fault ends the series.
    pub open spec fn after_ticks(self, times: Seq<u128>, chances: Seq<u8>, count: nat) -> Result<
        MachineState,
        Fault,
    >
        decreases count,
    {
        if count == 0 {
            Ok(self)
        } else {
            match self.after_ticks(times, chances, (count - 1) as nat) {
                Ok(s) => s.tick(times[count - 1], chances[count - 1]),
                Err(fault) => Err(fault),
            }
        }
    }

    /// Whether none of the first `count` ticks of a series executes an
    /// instruction that sets the delay timer.
    pub open spec fn leaves_delay_timer(
        self,
        times: Seq<u128>,
        chances: Seq<u8>,
        count: nat,
    ) -> bool {
        forall|k: nat|
            k < count ==> (#[trigger] self.after_ticks(times, chances, k) matches Ok(s) ==> !(
            s.instruction_due(times[k as int]) && s.next_op() matches Some(
                OpCode::SetDelayTimer(_),
            )))
    }

    /// Whether none of the first `count` ticks of a series executes an
    /// instruction that sets the sound timer.
    pub open spec fn leaves_sound_timer(
        self,
        times: Seq<u128>,
        chances: Seq<u8>,
        count: nat,
    ) -> bool {
        forall|k: nat|
            k < count ==> (#[trigger] self.after_ticks(times, chances, k) matches Ok(s) ==> !(
            s.instruction_due(times[k as int]) && s.next_op() matches Some(
                OpCode::SetSoundTimer(_),
            )))
    }
}

/// The deadline of the timers after the first `count` ticks of a series,
/// as the times of the ticks alone decide it.
pub open spec fn timer_deadline(deadline: u128, times: Seq<u128>, count: nat) -> u128
    decreases count,
{
    if count == 0 {
        deadline
    } else {
        let before = timer_deadline(deadline, times, (count - 1) as nat);
        if before <= times[count - 1] {
            (times[count - 1] + TIMER_PERIOD_MS) as u128
        } else {
            before
        }
    }
}

/// The number of steps that the timers are due among the first `count`
/// ticks of a series, as the times of the ticks alone decide it.
pub open spec fn timer_steps(deadline: u128, times: Seq<u128>, count: nat) -> nat
    decreases count,
{
    if count == 0 {
        0
    } else {
        let steps = timer_steps(deadline, times, (count - 1) as nat);
        if timer_deadline(deadline, times, (count - 1) as nat) <= times[count - 1] {
            steps + 1
        } else {
            steps
        }
    }
}

/// A timer after `steps` steps: that much less, but never below zero.
pub open spec fn counted_down_by(timer: u8, steps: nat) -> u8 {
    if timer >= steps {
        (timer - steps) as u8
    } else {
        0
    }
}

/// Over any series of ticks the timers keep their own time. Their deadline
/// after the series is what the times of the ticks alone give, whatever
/// the instructions were and however many of them were executed; and a
/// timer that no instruction of the series has set has counted down by the
/// number of steps that those times give, stopping at zero.
pub proof fn lemma_timers_keep_their_own_time(
    s: MachineState,
    times: Seq<u128>,
    chances: Seq<u8>,
    count: nat,
)
    requires
        s.well_formed(),
        count <= times.len(),
        count <= chances.len(),
        forall|k: int| 0 <= k < count ==> times[k] + TIMER_PERIOD_MS <= u128::MAX,
    ensures
        s.after_ticks(times, chances, count) matches Ok(t) ==> {
            &&& t.well_formed()
            &&& t.next_timer_tick == timer_deadline(s.next_timer_tick, times, count)
            &&& s.leaves_delay_timer(times, chances, count) ==> t.delay_timer == counted_down_by(
                s.delay_timer,
                timer_steps(s.next_timer_tick, times, count),
            )
            &&& s.leaves_sound_timer(times, chances, count) ==> t.sound_timer == counted_down_by(
                s.sound_timer,
                timer_steps(s.next_timer_tick, times, count),
            )
        },
    decreases count,
{
    if count > 0 {
        let earlier = (count - 1) as nat;
        lemma_timers_keep_their_own_time(s, times, chances, earlier);
        match s.after_ticks(times, chances, earlier) {
            Ok(mid) => {
                let now = times[count - 1];
                let random = chances[count - 1];
                lemma_tick_keeps_well_formed(mid, now, random);
                lemma_timers_run_independently(mid, now, random);
                if s.leaves_delay_timer(times, chances, count) {
                    assert(s.leaves_delay_timer(times, chances, earlier));
                    assert(s.after_ticks(times, chances, earlier) == Ok::<MachineState, Fault>(mid));
                }
                if s.leaves_sound_timer(times, chances, count) {
                    assert(s.leaves_sound_timer(times, chances, earlier));
                    assert(s.after_ticks(times, chances, earlier) == Ok::<MachineState, Fault>(mid));
                }
            },
            Err(_) => {},
        }
    }
}

impl MachineState {
    /// Whether the program counter and every return address on the stack
    /// are even.
    pub open spec fn aligned(self) -> bool {
        &&& self.program_counter % 2 == 0
        &&& forall|i: int| 0 <= i < self.stack.len() ==> #[trigger] self.stack[i] % 2 == 0
    }
}

/// The program counter stays even as long as no jump goes to an odd
/// address: an instruction cycle keeps the program counter and the return
/// addresses even unless it is a `Jump` or a `Call` to an odd address or a
/// `JumpOffset` whose address and register 0 add up to an odd number.
pub proof fn lemma_step_keeps_aligned(s: MachineState, random: u8)
    requires
        s.well_formed(),
        s.aligned(),
        s.next_op() matches Some(OpCode::Jump(addr)) ==> addr % 2 == 0,
        s.next_op() matches Some(OpCode::Call(addr)) ==> addr % 2 == 0,
        s.next_op() matches Some(OpCode::JumpOffset(addr)) ==> (addr + s.reg(0)) % 2 == 0,
    ensures
        s.step(random) matches Ok(t) ==> t.aligned(),
{
    if s.can_fetch() {
        match decode(s.current_word()) {
            Some(OpCode::Return) => {
                if s.stack.len() > 0 {
                    assert(s.stack[s.stack.len() - 1] % 2 == 0);
                }
            },
            Some(OpCode::Call(addr)) => {
                if s.stack.len() < STACK_SIZE {
                    let t = s.step(random).unwrap();
                    assert forall|i: int| 0 <= i < t.stack.len() implies #[trigger] t.stack[i] % 2
                        == 0 by {
                        if i < s.stack.len() {
                            assert(s.stack[i] % 2 == 0);
                        }
                    }
                }
            },
            _ => {},
        }
    }
}

} // verus!
