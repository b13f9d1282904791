use crate::disassembler::{disassemble_word, OpCode};
use crate::display::DisplayBuffer;
use crate::keyboard::{KeyboardInput, KeyboardState};
use crate::machine::{
    carried_out, ticked, Fault, LoadError, MachineState, CLOCK_PERIOD_MS, MEMORY_SIZE, PROGRAM_OFFSET,
    TIMER_PERIOD_MS,
};
use vstd::prelude::*;

verus! {

/// The sprites of the sixteen characters `0` to `F`, five bytes each.
pub const FONT_SPRITES: [u8; 80] = [
    0xF0, 0x90, 0x90, 0x90, 0xF0,  // "0"
    0x20, 0x60, 0x20, 0x20, 0x70,  // "1"
    0xF0, 0x10, 0xF0, 0x80, 0xF0,  // "2"
    0xF0, 0x10, 0xF0, 0x10, 0xF0,  // "3"
    0x90, 0x90, 0xF0, 0x10, 0x10,  // "4"
    0xF0, 0x80, 0xF0, 0x10, 0xF0,  // "5"
    0xF0, 0x80, 0xF0, 0x90, 0xF0,  // "6"
    0xF0, 0x10, 0x20, 0x40, 0x40,  // "7"
    0xF0, 0x90, 0xF0, 0x90, 0xF0,  // "8"
    0xF0, 0x90, 0xF0, 0x10, 0xF0,  // "9"
    0xF0, 0x90, 0xF0, 0x90, 0x90,  // "A"
    0xE0, 0x90, 0xE0, 0x90, 0xE0,  // "B"
    0xF0, 0x80, 0x80, 0x80, 0xF0,  // "C"
    0xE0, 0x90, 0x90, 0x90, 0xE0,  // "D"
    0xF0, 0x80, 0xF0, 0x80, 0xF0,  // "E"
    0xF0, 0x80, 0xF0, 0x80, 0x80,  // "F"
];

/// The machine: memory, registers, call stack, timers, the two clocks'
/// deadlines, the display and the keypad.
pub struct Cpu {
    program_counter: usize,
    index: u16,
    stack: [u16; 16],
    stack_pointer: usize,
    memory: [u8; 4096],  // 4K of memory
    registers: [u8; 16],
    delay_timer: u8,
    sound_timer: u8,
    next_tick: u128,
    next_timer_tick: u128,
    display: DisplayBuffer,
    keyboard: KeyboardInput,
}

impl View for Cpu {
    type V = MachineState;

    closed spec fn view(&self) -> MachineState {
        MachineState {
            program_counter: self.program_counter as int,
            index: self.index,
            stack: self.stack@.take(self.stack_pointer as int),
            memory: self.memory@,
            registers: self.registers@,
            delay_timer: self.delay_timer,
            sound_timer: self.sound_timer,
            next_tick: self.next_tick,
            next_timer_tick: self.next_timer_tick,
            display: self.display@,
            keyboard: self.keyboard@,
        }
    }
}

/// A machine that has just been made: everything zero, the display blank,
/// the keypad at rest, the program counter at the load address.
pub open spec fn initial_state() -> MachineState {
    MachineState {
        program_counter: PROGRAM_OFFSET as int,
        index: 0,
        stack: Seq::empty(),
        memory: Seq::new(MEMORY_SIZE as nat, |i: int| 0u8),
        registers: Seq::new(16, |i: int| 0u8),
        delay_timer: 0,
        sound_timer: 0,
        next_tick: 0,
        next_timer_tick: 0,
        display: crate::display::blank(),
        keyboard: KeyboardState::idle(),
    }
}

/// Memory with `bytes` written from `offset` on, and the rest as it was.
pub open spec fn overwritten(memory: Seq<u8>, offset: int, bytes: Seq<u8>) -> Seq<u8> {
    Seq::new(
        memory.len(),
        |a: int|
            if offset <= a < offset + bytes.len() {
                bytes[a - offset]
            } else {
                memory[a]
            },
    )
}

/// The sum of two bytes in eight bits, and whether it did not fit.
fn add_with_carry(a: u8, b: u8) -> (r: (u8, bool))
    ensures
        r.0 == ((a + b) % 256) as u8,
        r.1 == (a + b > 255),
{
    let sum: u16 = a as u16 + b as u16;
    assert(sum & 0xFF == sum % 256) by (bit_vector);
    ((sum & 0xFF) as u8, sum > 0xFF)
}

/// The difference of two bytes in eight bits, and whether nothing had to
/// be borrowed.
fn subtract_with_borrow(a: u8, b: u8) -> (r: (u8, bool))
    ensures
        r.0 == ((a - b) % 256) as u8,
        r.1 == (a >= b),
{
    (a.wrapping_sub(b), a >= b)
}

/// A byte shifted right by one bit, and the bit that fell out.
fn shift_right(val: u8) -> (r: (u8, bool))
    ensures
        r.0 == (val / 2) as u8,
        r.1 == (val % 2 == 1),
{
    assert(val >> 1 == val / 2 && ((val & 1) == 1) == (val % 2 == 1)) by (bit_vector);
    (val >> 1, (val & 1) == 1)
}

/// A byte shifted left by one bit, and the bit that fell out.
fn shift_left(val: u8) -> (r: (u8, bool))
    ensures
        r.0 == ((val * 2) % 256) as u8,
        r.1 == (val >= 128),
{
    assert(val << 1 == (val * 2) % 256 && ((val & 0b1000_0000) > 0) == (val >= 128))
        by (bit_vector);
    (val << 1, (val & 0b1000_0000) > 0)
}

/// An address moved on by a byte, in sixteen bits.
fn add_to_index(index: u16, offset: u8) -> (r: u16)
    ensures
        r == ((index + offset) % 0x10000) as u16,
{
    index.wrapping_add(offset as u16)
}

/// A byte drawn by `rand::random`, from the generator that the `rand`
/// crate keeps for the calling thread. Nothing is claimed of the byte: it
/// may be any.
#[verifier::external_body]
fn random_byte() -> (r: u8) {
    rand::random::<u8>()
}

impl Cpu {
    /// The stack pointer is within the stack and the keypad is in order.
    pub closed spec fn well_formed(&self) -> bool {
        self.stack_pointer <= 16 && self.keyboard@.well_formed()
    }

    /// The state of a machine that is in order is in order.
    pub proof fn lemma_well_formed_state(&self)
        requires
            self.well_formed(),
        ensures
            self@.well_formed(),
    {
        self.display.lemma_size();
    }

    /// A machine with everything zero, the display blank, the keypad at
    /// rest and the program counter at the load address.
    pub fn new() -> (cpu: Self)
        ensures
            cpu.well_formed(),
            cpu@ == initial_state(),
    {
        let cpu = Cpu {
            program_counter: PROGRAM_OFFSET,
            index: 0,
            stack: [0;16],
            stack_pointer: 0,
            memory: [0;4096],
            registers: [0;16],
            delay_timer: 0,
            sound_timer: 0,
            next_tick: 0,
            next_timer_tick: 0,
            display: DisplayBuffer::new(),
            keyboard: KeyboardInput::new(),
        };
        assert(cpu@.stack =~= initial_state().stack);
        assert(cpu@.memory =~= initial_state().memory);
        assert(cpu@.registers =~= initial_state().registers);
        cpu
    }

    /// Loads the character sprites into memory, from address 0 on.
    pub fn init(&mut self)
        requires
            old(self).well_formed(),
        ensures
            final(self).well_formed(),
            final(self)@ == (MachineState {
                memory: overwritten(old(self)@.memory, 0, FONT_SPRITES@),
                ..old(self)@
            }),
    {
        // load font data into memory
        let mut i: usize = 0;
        assert(self@.memory =~= overwritten(old(self)@.memory, 0, FONT_SPRITES@.take(0)));
        while i < 80
            invariant
                i <= 80,
                self.well_formed(),
                self@ == (MachineState {
                    memory: overwritten(old(self)@.memory, 0, FONT_SPRITES@.take(i as int)),
                    ..old(self)@
                }),
            decreases 80 - i,
        {
            self.memory[i] = FONT_SPRITES[i];
            i += 1;
            assert(self@.memory =~= overwritten(old(self)@.memory, 0, FONT_SPRITES@.take(i as int)));
        }
        assert(FONT_SPRITES@.take(80) =~= FONT_SPRITES@);
    }

    /// Loads a program into memory, from the load address on. A program
    /// that does not fit is refused, and memory stays as it was.
    pub fn load_program(&mut self, buffer: &[u8]) -> (result: Result<(), LoadError>)
        requires
            old(self).well_formed(),
        ensures
            final(self).well_formed(),
            buffer@.len() <= MEMORY_SIZE - PROGRAM_OFFSET ==> result is Ok && final(self)@ == (
            MachineState {
                memory: overwritten(old(self)@.memory, PROGRAM_OFFSET as int, buffer@),
                ..old(self)@
            }),
            buffer@.len() > MEMORY_SIZE - PROGRAM_OFFSET ==> result == Err::<(), LoadError>(
                LoadError::ProgramTooLarge,
            ) && final(self)@ == old(self)@,
    {
        let len: usize = buffer.len();
        if len > MEMORY_SIZE - PROGRAM_OFFSET {
            return Err(LoadError::ProgramTooLarge);
        }
        // load program into memory starting at the program offset
        let mut i: usize = 0;
        assert(self@.memory =~= overwritten(
            old(self)@.memory,
            PROGRAM_OFFSET as int,
            buffer@.take(0),
        ));
        while i < len
            invariant
                i <= len,
                len == buffer@.len(),
                len <= MEMORY_SIZE - PROGRAM_OFFSET,
                self.well_formed(),
                self@ == (MachineState {
                    memory: overwritten(
                        old(self)@.memory,
                        PROGRAM_OFFSET as int,
                        buffer@.take(i as int),
                    ),
                    ..old(self)@
                }),
            decreases len - i,
        {
            self.memory[PROGRAM_OFFSET + i] = buffer[i];
            i += 1;
            assert(self@.memory =~= overwritten(
                old(self)@.memory,
                PROGRAM_OFFSET as int,
                buffer@.take(i as int),
            ));
        }
        assert(buffer@.take(len as int) =~= buffer@);
        Ok(())
    }

    /// Advances to the next instruction.
    pub fn advance(&mut self)
        requires
            old(self).well_formed(),
            old(self)@.program_counter <= MEMORY_SIZE,
        ensures
            final(self).well_formed(),
            final(self)@ == old(self)@.moved(2),
    {
        self.program_counter += 2;
    }

    /// Writes a register.
    fn set_register(&mut self, x: u8, value: u8)
        requires
            old(self).well_formed(),
            x < 16,
        ensures
            final(self).well_formed(),
            final(self)@ == old(self)@.with_register(x, value),
    {
        self.registers[x as usize] = value;
    }

    /// Writes a register, and then the flag register.
    fn set_flagged(&mut self, x: u8, value: u8, flag: bool)
        requires
            old(self).well_formed(),
            x < 16,
        ensures
            final(self).well_formed(),
            final(self)@ == old(self)@.with_flagged(x, value, flag),
    {
        self.registers[x as usize] = value;
        self.registers[0xF] = if flag {
            1
        } else {
            0
        };
    }

    /// Skips the next instruction if the condition holds.
    fn skip_if(&mut self, condition: bool)
        requires
            old(self).well_formed(),
            old(self)@.program_counter <= MEMORY_SIZE,
        ensures
            final(self).well_formed(),
            final(self)@ == old(self)@.skip_if(condition),
    {
        if condition {
            self.advance();
        }
    }

    /// Pops a return address from the stack, then jumps to it.
    fn pop_return(&mut self) -> (result: Result<(), Fault>)
        requires
            old(self).well_formed(),
        ensures
            final(self).well_formed(),
            carried_out(
                old(self)@.apply(OpCode::Return, 0),
                old(self)@,
                final(self)@,
                result,
            ),
    {
        if self.stack_pointer == 0 {
            return Err(Fault::StackUnderflow);
        }
        self.stack_pointer -= 1;
        self.program_counter = self.stack[self.stack_pointer] as usize;
        assert(self@.stack =~= old(self)@.stack.drop_last());
        Ok(())
    }

    /// Pushes the return address to the stack, then jumps to the address.
    fn push_call(&mut self, addr: u16) -> (result: Result<(), Fault>)
        requires
            old(self).well_formed(),
            old(self)@.program_counter <= MEMORY_SIZE,
        ensures
            final(self).well_formed(),
            carried_out(
                old(self)@.apply(OpCode::Call(addr), 0),
                old(self)@,
                final(self)@,
                result,
            ),
    {
        if self.stack_pointer >= 16 {
            return Err(Fault::StackOverflow);
        }
        self.stack[self.stack_pointer] = self.program_counter as u16;
        self.stack_pointer += 1;
        self.program_counter = addr as usize;
        assert(self@.stack =~= old(self)@.stack.push(old(self)@.program_counter as u16));
        Ok(())
    }

    /// Draws a sprite from memory onto the display, and sets the collision
    /// flag.
    fn draw(&mut self, x: u8, y: u8, num_bytes: u8) -> (result: Result<(), Fault>)
        requires
            old(self).well_formed(),
            x < 16,
            y < 16,
        ensures
            final(self).well_formed(),
            carried_out(
                old(self)@.apply(OpCode::DrawSprite(x, y, num_bytes), 0),
                old(self)@,
                final(self)@,
                result,
            ),
    {
        let start: usize = self.index as usize;
        let end: usize = start + num_bytes as usize;
        if end > MEMORY_SIZE {
            return Err(Fault::AddressOutOfRange);
        }
        let bytes = vstd::slice::slice_subrange(self.memory.as_slice(), start, end);
        let collision: bool = self.display.draw_sprite(
            self.registers[x as usize],
            self.registers[y as usize],
            bytes,
        );

        self.registers[0xF] = if collision {
            1
        } else {
            0
        };
        Ok(())
    }

    /// Waits for a key without blocking: arms the watch for a release if
    /// it is not armed, then either takes the released key or goes back to
    /// the instruction.
    fn wait_for_key(&mut self, x: u8)
        requires
            old(self).well_formed(),
            x < 16,
            2 <= old(self)@.program_counter,
        ensures
            final(self).well_formed(),
            final(self)@ == old(self)@.with_key_wait(x),
    {
        // if we're not already tracking a key, start
        if !self.keyboard.is_tracking_next_key_release() {
            self.keyboard.track_next_key_release(true);
        }
        // see if a key has been released yet

        if let Some(key) = self.keyboard.get_last_released_key() {
            self.keyboard.track_next_key_release(false);
            self.registers[x as usize] = key;
        } else {
            // no key released, so run this instruction again
            self.program_counter -= 2;
        }
    }

    /// Stores the decimal digits of a value in memory at the index.
    fn store_digits(&mut self, val: u8) -> (result: Result<(), Fault>)
        requires
            old(self).well_formed(),
        ensures
            final(self).well_formed(),
            old(self)@.index_in_range(3) ==> result is Ok && final(self)@ == old(self)@.with_digits(val),
            !old(self)@.index_in_range(3) ==> result == Err::<(), Fault>(
                Fault::AddressOutOfRange,
            ) && final(self)@ == old(self)@,
    {
        let addr: usize = self.index as usize;
        if addr + 3 > MEMORY_SIZE {
            return Err(Fault::AddressOutOfRange);
        }
        self.memory[addr] = val / 100;
        self.memory[addr + 1] = (val / 10) % 10;
        self.memory[addr + 2] = val % 10;
        Ok(())
    }

    /// Stores registers 0 to `x` into memory at the index.
    fn dump_registers(&mut self, x: u8) -> (result: Result<(), Fault>)
        requires
            old(self).well_formed(),
            x < 16,
        ensures
            final(self).well_formed(),
            old(self)@.index_in_range(x + 1) ==> result is Ok && final(self)@ == old(self)@.with_dump(x),
            !old(self)@.index_in_range(x + 1) ==> result == Err::<(), Fault>(
                Fault::AddressOutOfRange,
            ) && final(self)@ == old(self)@,
    {
        let ghost before = self@;
        let addr: usize = self.index as usize;
        if addr + x as usize + 1 > MEMORY_SIZE {
            return Err(Fault::AddressOutOfRange);
        }
        let mut i: usize = 0;
        assert(self@.memory =~= before.with_dump_upto(0).memory);
        while i <= x as usize
            invariant
                i <= x + 1,
                x < 16,
                addr == self.index,
                addr + x + 1 <= MEMORY_SIZE,
                self.well_formed(),
                self@ == before.with_dump_upto(i as int),
            decreases x + 1 - i,
        {
            self.memory[addr + i] = self.registers[i];
            i += 1;
            assert(self@.memory =~= before.with_dump_upto(i as int).memory);
        }
        assert(self@.memory =~= before.with_dump(x).memory);
        Ok(())
    }

    /// Fills registers 0 to `x` from memory at the index.
    fn load_registers(&mut self, x: u8) -> (result: Result<(), Fault>)
        requires
            old(self).well_formed(),
            x < 16,
        ensures
            final(self).well_formed(),
            old(self)@.index_in_range(x + 1) ==> result is Ok && final(self)@ == old(self)@.with_load(x),
            !old(self)@.index_in_range(x + 1) ==> result == Err::<(), Fault>(
                Fault::AddressOutOfRange,
            ) && final(self)@ == old(self)@,
    {
        let ghost before = self@;
        let addr: usize = self.index as usize;
        if addr + x as usize + 1 > MEMORY_SIZE {
            return Err(Fault::AddressOutOfRange);
        }
        let mut i: usize = 0;
        assert(self@.registers =~= before.with_load_upto(0).registers);
        while i <= x as usize
            invariant
                i <= x + 1,
                x < 16,
                addr == self.index,
                addr + x + 1 <= MEMORY_SIZE,
                self.well_formed(),
                self@ == before.with_load_upto(i as int),
            decreases x + 1 - i,
        {
            self.registers[i] = self.memory[addr + i];
            i += 1;
            assert(self@.registers =~= before.with_load_upto(i as int).registers);
        }
        assert(self@.registers =~= before.with_load(x).registers);
        Ok(())
    }

    /// Carries out an operation whose instruction the program counter has
    /// already moved past. `random` is the byte that `Rand` mixes in. On a
    /// fault the machine stays as it was.
    pub fn execute_opcode(&mut self, opcode: OpCode, random: u8) -> (result: Result<(), Fault>)
        requires
            old(self).well_formed(),
            opcode.well_formed(),
            2 <= old(self)@.program_counter <= MEMORY_SIZE,
        ensures
            final(self).well_formed(),
            carried_out(old(self)@.apply(opcode, random), old(self)@, final(self)@, result),
    {
        match opcode {
            OpCode::ClearDisplay => {
                // clears entire display
                self.display.clear();
                Ok(())
            },
            OpCode::Return => self.pop_return(),
            OpCode::Jump(addr) => {
                // sets program counter without pushing return address
                self.program_counter = addr as usize;
                Ok(())
            },
            OpCode::Call(addr) => self.push_call(addr),
            OpCode::SkipEqVal(x, val) => {
                // skips the next instruction if rX is equal to a value
                self.skip_if(self.registers[x as usize] == val);
                Ok(())
            },
            OpCode::SkipNotEqVal(x, val) => {
                // skips the next instruction if rX is not equal to a value
                self.skip_if(self.registers[x as usize] != val);
                Ok(())
            },
            OpCode::SkipEq(x, y) => {
                // skips the next instruction if rX is equal to rY
                self.skip_if(self.registers[x as usize] == self.registers[y as usize]);
                Ok(())
            },
            OpCode::SetVal(x, val) => {
                // set a value into a register
                self.set_register(x, val);
                Ok(())
            },
            OpCode::AddVal(x, val) => {
                // adds a value to a register w/o carry flag
                self.set_register(x, add_with_carry(self.registers[x as usize], val).0);
                Ok(())
            },
            OpCode::Copy(x, y) => {
                // copies a value from rY to rX
                self.set_register(x, self.registers[y as usize]);
                Ok(())
            },
            OpCode::Or(x, y) => {
                // sets rX to bitwise OR of rX and rY
                self.set_register(x, self.registers[x as usize] | self.registers[y as usize]);
                Ok(())
            },
            OpCode::And(x, y) => {
                // sets rX to bitwise AND of rX and rY
                self.set_register(x, self.registers[x as usize] & self.registers[y as usize]);
                Ok(())
            },
            OpCode::Xor(x, y) => {
                // sets rX to bitwise XOR of rX and rY
                self.set_register(x, self.registers[x as usize] ^ self.registers[y as usize]);
                Ok(())
            },
            OpCode::Add(x, y) => {
                // adds rY to rX and sets flag to 1 if there is a carry
                let (sum, carry) = add_with_carry(
                    self.registers[x as usize],
                    self.registers[y as usize],
                );

                self.set_flagged(x, sum, carry);
                Ok(())
            },
            OpCode::Subtract(x, y) => {
                // subtracts rY from rX and sets flag to 0 if there is a borrow
                let (difference, no_borrow) = subtract_with_borrow(
                    self.registers[x as usize],
                    self.registers[y as usize],
                );

                self.set_flagged(x, difference, no_borrow);
                Ok(())
            },
            OpCode::ShiftRight(x) => {
                // stores LSB as flag, then shifts rX to the right once
                let (shifted, lsb) = shift_right(self.registers[x as usize]);

                self.set_flagged(x, shifted, lsb);
                Ok(())
            },
            OpCode::Difference(x, y) => {
                // sets rX to rY minus rX and sets flag to 0 if there is a borrow
                let (difference, no_borrow) = subtract_with_borrow(
                    self.registers[y as usize],
                    self.registers[x as usize],
                );

                self.set_flagged(x, difference, no_borrow);
                Ok(())
            },
            OpCode::ShiftLeft(x) => {
                // stores MSB as flag, then shifts rX to the left once
                let (shifted, msb) = shift_left(self.registers[x as usize]);

                self.set_flagged(x, shifted, msb);
                Ok(())
            },
            OpCode::SkipNotEq(x, y) => {
                // skips the next instruction if rX is not equal to rY
                self.skip_if(self.registers[x as usize] != self.registers[y as usize]);
                Ok(())
            },
            OpCode::SetIndex(addr) => {
                // sets index register
                self.index = addr;
                Ok(())
            },
            OpCode::JumpOffset(addr) => {
                // jumps to address with an offset of r0
                self.program_counter = (addr + (self.registers[0] as u16)) as usize;
                Ok(())
            },
            OpCode::Rand(x, val) => {
                // set rX to result of bitwise AND of value and random 8-bit integer
                self.set_register(x, random & val);
                Ok(())
            },
            OpCode::DrawSprite(x, y, num_bytes) => self.draw(x, y, num_bytes),
            OpCode::SkipKeyPressed(x) => {
                // skips next instruction if key at rX is pressed
                let key: u8 = self.registers[x as usize];

                self.skip_if(self.keyboard.is_key_pressed(key));
                Ok(())
            },
            OpCode::SkipKeyNotPressed(x) => {
                // skips next instruction if key at rX is not pressed
                let key: u8 = self.registers[x as usize];

                self.skip_if(!self.keyboard.is_key_pressed(key));
                Ok(())
            },
            OpCode::GetDelayTimer(x) => {
                // sets rX to value of delay timer
                self.set_register(x, self.delay_timer);
                Ok(())
            },
            OpCode::GetKeyPress(x) => {
                // waits until a key is released, then stores that key in rX
                self.wait_for_key(x);
                Ok(())
            },
            OpCode::SetDelayTimer(x) => {
                // sets delay timer to value of rX
                self.delay_timer = self.registers[x as usize];
                Ok(())
            },
            OpCode::SetSoundTimer(x) => {
                // sets sound timer to value of rX
                self.sound_timer = self.registers[x as usize];
                Ok(())
            },
            OpCode::AddIndex(x) => {
                // adds rX to index register
                self.index = add_to_index(self.index, self.registers[x as usize]);
                Ok(())
            },
            OpCode::SetIndexCharacter(x) => {
                // sets memory index to sprite of the character that is in a register
                self.index = self.registers[x as usize] as u16 * 5;
                Ok(())
            },
            OpCode::StoreBCD(x) => self.store_digits(self.registers[x as usize]),
            OpCode::RegDump(x) => self.dump_registers(x),
            OpCode::RegLoad(x) => self.load_registers(x),
        }
    }

    /// Executes the instruction at the program counter: reads its two
    /// bytes, decodes them, moves the program counter past them and carries
    /// out the operation. A word that stands for no operation is passed
    /// over. `Rand` draws its byte by chance; nothing else depends on
    /// chance. On a fault the machine stays as it was.
    pub fn execute(&mut self) -> (result: Result<(), Fault>)
        requires
            old(self).well_formed(),
        ensures
            final(self).well_formed(),
            exists|random: u8|
                carried_out(
                    #[trigger] old(self)@.step(random),
                    old(self)@,
                    final(self)@,
                    result,
                ),
            !old(self)@.next_is_random() ==> forall|random: u8|
                carried_out(
                    #[trigger] old(self)@.step(random),
                    old(self)@,
                    final(self)@,
                    result,
                ),
    {
        let ghost before = self@;
        let addr: usize = self.program_counter;
        if addr >= MEMORY_SIZE - 1 {
            assert(carried_out(before.step(0), before, self@, Err::<(), Fault>(Fault::FetchOutOfRange)));
            return Err(Fault::FetchOutOfRange);
        }
        let word: u16 = (self.memory[addr] as u16) * 0x100 + (self.memory[addr + 1] as u16);
        match disassemble_word(word) {
            Some(opcode) => {
                self.advance();
                let random: u8 = match opcode {
                    OpCode::Rand(_, _) => random_byte(),
                    _ => 0,
                };
                let result = match self.execute_opcode(opcode, random) {
                    Ok(()) => Ok(()),
                    Err(fault) => {
                        self.program_counter -= 2;
                        Err(fault)
                    },
                };
                proof {
                    assert(carried_out(before.step(random), before, self@, result));
                    if !before.next_is_random() {
                        assert forall|other: u8|
                            carried_out(
                                #[trigger] before.step(other),
                                before,
                                self@,
                                result,
                            ) by {
                            crate::machine::lemma_chance_only_in_rand(
                                before.moved(2),
                                opcode,
                                random,
                                other,
                            );
                        }
                    }
                }
                result
            },
            None => {
                self.advance();
                assert(carried_out(before.step(0), before, self@, Ok::<(), Fault>(())));
                Ok(())
            },
        }
    }

    /// One turn of the host's loop at time `now`, in milliseconds. If an
    /// instruction is due, executes one and sets the next to be due one
    /// clock period after `now`. Then, if a step of the timers is due,
    /// counts both down and sets their next step to be due one timer period
    /// after `now`. Returns whether the tone should sound: whether the
    /// sound timer was running between the two. On a fault the machine
    /// stays as it was.
    pub fn tick(&mut self, now: u128) -> (result: Result<bool, Fault>)
        requires
            old(self).well_formed(),
            now + TIMER_PERIOD_MS <= u128::MAX,
        ensures
            final(self).well_formed(),
            exists|random: u8|
                ticked(
                    #[trigger] old(self)@.tick(now, random),
                    old(self)@.sounding(now, random),
                    old(self)@,
                    final(self)@,
                    result,
                ),
            !(old(self)@.instruction_due(now) && old(self)@.next_is_random()) ==> forall|
                random: u8,
            |
                ticked(
                    #[trigger] old(self)@.tick(now, random),
                    old(self)@.sounding(now, random),
                    old(self)@,
                    final(self)@,
                    result,
                ),
    {
        let ghost before = self@;
        let ghost mut chance: u8 = 0;
        if self.next_tick <= now {
            match self.execute() {
                Ok(()) => {},
                Err(fault) => {
                    proof {
                        chance = choose|random: u8|
                            carried_out(
                                #[trigger] before.step(random),
                                before,
                                self@,
                                Err::<(), Fault>(fault),
                            );
                        assert(ticked(
                            before.tick(now, chance),
                            before.sounding(now, chance),
                            before,
                            self@,
                            Err::<bool, Fault>(fault),
                        ));
                    }
                    return Err(fault);
                },
            }
            proof {
                chance = choose|random: u8|
                    carried_out(
                        #[trigger] before.step(random),
                        before,
                        self@,
                        Ok::<(), Fault>(()),
                    );
            }
            self.next_tick = now + CLOCK_PERIOD_MS;
        }
        let sounding: bool = self.sound_timer > 0;

        if self.next_timer_tick <= now {
            if self.delay_timer > 0 {
                self.delay_timer -= 1;
            }
            if self.sound_timer > 0 {
                self.sound_timer -= 1;
            }
            self.next_timer_tick = now + TIMER_PERIOD_MS;
        }
        proof {
            assert(ticked(
                before.tick(now, chance),
                before.sounding(now, chance),
                before,
                self@,
                Ok::<bool, Fault>(sounding),
            ));
        }
        Ok(sounding)
    }

    /// The keypad, for the host to report keys to.
    pub fn get_keyboard(&mut self) -> (keyboard: &mut KeyboardInput)
        ensures
            keyboard@ == old(self)@.keyboard,
            final(self)@ == (MachineState { keyboard: final(keyboard)@, ..old(self)@ }),
            old(self).well_formed() && final(keyboard)@.well_formed() ==> final(self).well_formed(),
    {
        &mut self.keyboard
    }

    /// The address of the next instruction.
    pub fn program_counter(&self) -> (pc: usize)
        ensures
            pc == self@.program_counter,
    {
        self.program_counter
    }

    /// The value of the index register.
    pub fn index_register(&self) -> (index: u16)
        ensures
            index == self@.index,
    {
        self.index
    }

    /// The value of register `x`.
    pub fn register(&self, x: u8) -> (value: u8)
        requires
            x < 16,
        ensures
            value == self@.reg(x),
    {
        self.registers[x as usize]
    }

    /// The byte of memory at `address`.
    pub fn memory_at(&self, address: usize) -> (byte: u8)
        requires
            address < MEMORY_SIZE,
        ensures
            byte == self@.memory[address as int],
    {
        self.memory[address]
    }

    /// The number of calls that have not returned.
    pub fn stack_depth(&self) -> (depth: usize)
        requires
            self.well_formed(),
        ensures
            depth == self@.stack.len(),
    {
        self.stack_pointer
    }

    /// The value of the delay timer.
    pub fn delay_timer(&self) -> (timer: u8)
        ensures
            timer == self@.delay_timer,
    {
        self.delay_timer
    }

    /// The value of the sound timer.
    pub fn sound_timer(&self) -> (timer: u8)
        ensures
            timer == self@.sound_timer,
    {
        self.sound_timer
    }

    /// The display, for the host to show.
    pub fn get_display(&self) -> (display: &DisplayBuffer)
        ensures
            display@ == self@.display,
    {
        &self.display
    }
}

} // verus!
