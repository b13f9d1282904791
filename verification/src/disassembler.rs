use vstd::prelude::*;

verus! {

/// A decoded instruction. The comment beside each variant gives its
/// encoding as four hexadecimal digits: `X` and `Y` are register numbers,
/// `N`, `NN` and `NNN` are immediate values of one, two and three digits.
#[derive(Debug, Clone, Copy, PartialEq, Eq, Structural)]
pub enum OpCode {
    ClearDisplay,  // 00E0
    Return,  // 00EE
    Jump(u16),  // 1NNN
    Call(u16),  // 2NNN
    SkipEqVal(u8, u8),  // 3XNN
    SkipNotEqVal(u8, u8),  // 4XNN
    SkipEq(u8, u8),  // 5XY0
    SetVal(u8, u8),  // 6XNN
    AddVal(u8, u8),  // 7XNN
    Copy(u8, u8),  // 8XY0
    Or(u8, u8),  // 8XY1
    And(u8, u8),  // 8XY2
    Xor(u8, u8),  // 8XY3
    Add(u8, u8),  // 8XY4
    Subtract(u8, u8),  // 8XY5
    ShiftRight(u8),  // 8XY6
    Difference(u8, u8),  // 8XY7
    ShiftLeft(u8),  // 8XYE
    SkipNotEq(u8, u8),  // 9XY0
    SetIndex(u16),  // ANNN
    JumpOffset(u16),  // BNNN
    Rand(u8, u8),  // CXNN
    DrawSprite(u8, u8, u8),  // DXYN
    SkipKeyPressed(u8),  // EX9E
    SkipKeyNotPressed(u8),  // EXA1
    GetDelayTimer(u8),  // FX07
    GetKeyPress(u8),  // FX0A
    SetDelayTimer(u8),  // FX15
    SetSoundTimer(u8),  // FX18
    AddIndex(u8),  // FX1E
    SetIndexCharacter(u8),  // FX29
    StoreBCD(u8),  // FX33
    RegDump(u8),  // FX55
    RegLoad(u8),  // FX65
}

impl OpCode {
    /// Every register number and one-digit immediate is below 16, and every
    /// address is below 4096: the operands fit the digits that encode them.
    pub open spec fn well_formed(self) -> bool {
        match self {
            OpCode::ClearDisplay | OpCode::Return => true,
            OpCode::Jump(a) | OpCode::Call(a) | OpCode::SetIndex(a) | OpCode::JumpOffset(a) => a
                < 0x1000,
            OpCode::SkipEqVal(x, _)
            | OpCode::SkipNotEqVal(x, _)
            | OpCode::SetVal(x, _)
            | OpCode::AddVal(x, _)
            | OpCode::Rand(x, _) => x < 16,
            OpCode::SkipEq(x, y)
            | OpCode::Copy(x, y)
            | OpCode::Or(x, y)
            | OpCode::And(x, y)
            | OpCode::Xor(x, y)
            | OpCode::Add(x, y)
            | OpCode::Subtract(x, y)
            | OpCode::Difference(x, y)
            | OpCode::SkipNotEq(x, y) => x < 16 && y < 16,
            OpCode::DrawSprite(x, y, n) => x < 16 && y < 16 && n < 16,
            OpCode::ShiftRight(x)
            | OpCode::ShiftLeft(x)
            | OpCode::SkipKeyPressed(x)
            | OpCode::SkipKeyNotPressed(x)
            | OpCode::GetDelayTimer(x)
            | OpCode::GetKeyPress(x)
            | OpCode::SetDelayTimer(x)
            | OpCode::SetSoundTimer(x)
            | OpCode::AddIndex(x)
            | OpCode::SetIndexCharacter(x)
            | OpCode::StoreBCD(x)
            | OpCode::RegDump(x)
            | OpCode::RegLoad(x) => x < 16,
        }
    }

    /// The instruction word that encodes this operation. The two shifts
    /// have a digit that decoding ignores; it is written as zero.
    pub open spec fn encoding(self) -> int {
        match self {
            OpCode::ClearDisplay => 0x00E0,
            OpCode::Return => 0x00EE,
            OpCode::Jump(a) => 0x1000 + a,
            OpCode::Call(a) => 0x2000 + a,
            OpCode::SkipEqVal(x, v) => 0x3000 + x * 0x100 + v,
            OpCode::SkipNotEqVal(x, v) => 0x4000 + x * 0x100 + v,
            OpCode::SkipEq(x, y) => 0x5000 + x * 0x100 + y * 0x10,
            OpCode::SetVal(x, v) => 0x6000 + x * 0x100 + v,
            OpCode::AddVal(x, v) => 0x7000 + x * 0x100 + v,
            OpCode::Copy(x, y) => 0x8000 + x * 0x100 + y * 0x10,
            OpCode::Or(x, y) => 0x8001 + x * 0x100 + y * 0x10,
            OpCode::And(x, y) => 0x8002 + x * 0x100 + y * 0x10,
            OpCode::Xor(x, y) => 0x8003 + x * 0x100 + y * 0x10,
            OpCode::Add(x, y) => 0x8004 + x * 0x100 + y * 0x10,
            OpCode::Subtract(x, y) => 0x8005 + x * 0x100 + y * 0x10,
            OpCode::ShiftRight(x) => 0x8006 + x * 0x100,
            OpCode::Difference(x, y) => 0x8007 + x * 0x100 + y * 0x10,
            OpCode::ShiftLeft(x) => 0x800E + x * 0x100,
            OpCode::SkipNotEq(x, y) => 0x9000 + x * 0x100 + y * 0x10,
            OpCode::SetIndex(a) => 0xA000 + a,
            OpCode::JumpOffset(a) => 0xB000 + a,
            OpCode::Rand(x, v) => 0xC000 + x * 0x100 + v,
            OpCode::DrawSprite(x, y, n) => 0xD000 + x * 0x100 + y * 0x10 + n,
            OpCode::SkipKeyPressed(x) => 0xE09E + x * 0x100,
            OpCode::SkipKeyNotPressed(x) => 0xE0A1 + x * 0x100,
            OpCode::GetDelayTimer(x) => 0xF007 + x * 0x100,
            OpCode::GetKeyPress(x) => 0xF00A + x * 0x100,
            OpCode::SetDelayTimer(x) => 0xF015 + x * 0x100,
            OpCode::SetSoundTimer(x) => 0xF018 + x * 0x100,
            OpCode::AddIndex(x) => 0xF01E + x * 0x100,
            OpCode::SetIndexCharacter(x) => 0xF029 + x * 0x100,
            OpCode::StoreBCD(x) => 0xF033 + x * 0x100,
            OpCode::RegDump(x) => 0xF055 + x * 0x100,
            OpCode::RegLoad(x) => 0xF065 + x * 0x100,
        }
    }
}

/// The first hexadecimal digit of a word: the instruction family.
pub open spec fn family(word: u16) -> u8 {
    (word / 0x1000) as u8
}

/// The second hexadecimal digit of a word.
pub open spec fn digit_x(word: u16) -> u8 {
    ((word / 0x100) % 0x10) as u8
}

/// The third hexadecimal digit of a word.
pub open spec fn digit_y(word: u16) -> u8 {
    ((word / 0x10) % 0x10) as u8
}

/// The last hexadecimal digit of a word.
pub open spec fn digit_n(word: u16) -> u8 {
    (word % 0x10) as u8
}

/// The last two hexadecimal digits of a word.
pub open spec fn low_byte(word: u16) -> u8 {
    (word % 0x100) as u8
}

/// The last three hexadecimal digits of a word.
pub open spec fn low_address(word: u16) -> u16 {
    (word % 0x1000) as u16
}

/// The 16-bit word whose high byte is `hi` and whose low byte is `lo`.
pub open spec fn word_of(hi: u8, lo: u8) -> u16 {
    (hi * 0x100 + lo) as u16
}

/// The operation that a word stands for, or `None` where the table of
/// instructions has no entry for it.
pub open spec fn decode(word: u16) -> Option<OpCode> {
    let x = digit_x(word);
    let y = digit_y(word);
    let n = digit_n(word);
    let nn = low_byte(word);
    let nnn = low_address(word);
    match family(word) {
        0x0 => if word == 0x00E0 {
            Some(OpCode::ClearDisplay)
        } else if word == 0x00EE {
            Some(OpCode::Return)
        } else {
            None
        },
        0x1 => Some(OpCode::Jump(nnn)),
        0x2 => Some(OpCode::Call(nnn)),
        0x3 => Some(OpCode::SkipEqVal(x, nn)),
        0x4 => Some(OpCode::SkipNotEqVal(x, nn)),
        0x5 => if n == 0 {
            Some(OpCode::SkipEq(x, y))
        } else {
            None
        },
        0x6 => Some(OpCode::SetVal(x, nn)),
        0x7 => Some(OpCode::AddVal(x, nn)),
        0x8 => match n {
            0x0 => Some(OpCode::Copy(x, y)),
            0x1 => Some(OpCode::Or(x, y)),
            0x2 => Some(OpCode::And(x, y)),
            0x3 => Some(OpCode::Xor(x, y)),
            0x4 => Some(OpCode::Add(x, y)),
            0x5 => Some(OpCode::Subtract(x, y)),
            0x6 => Some(OpCode::ShiftRight(x)),
            0x7 => Some(OpCode::Difference(x, y)),
            0xE => Some(OpCode::ShiftLeft(x)),
            _ => None,
        },
        0x9 => if n == 0 {
            Some(OpCode::SkipNotEq(x, y))
        } else {
            None
        },
        0xA => Some(OpCode::SetIndex(nnn)),
        0xB => Some(OpCode::JumpOffset(nnn)),
        0xC => Some(OpCode::Rand(x, nn)),
        0xD => Some(OpCode::DrawSprite(x, y, n)),
        0xE => match nn {
            0x9E => Some(OpCode::SkipKeyPressed(x)),
            0xA1 => Some(OpCode::SkipKeyNotPressed(x)),
            _ => None,
        },
        _ => match nn {
            0x07 => Some(OpCode::GetDelayTimer(x)),
            0x0A => Some(OpCode::GetKeyPress(x)),
            0x15 => Some(OpCode::SetDelayTimer(x)),
            0x18 => Some(OpCode::SetSoundTimer(x)),
            0x1E => Some(OpCode::AddIndex(x)),
            0x29 => Some(OpCode::SetIndexCharacter(x)),
            0x33 => Some(OpCode::StoreBCD(x)),
            0x55 => Some(OpCode::RegDump(x)),
            0x65 => Some(OpCode::RegLoad(x)),
            _ => None,
        },
    }
}

/// The words decoded from a byte string: one for each full pair of bytes,
/// high byte first. A trailing odd byte is left out.
pub open spec fn decode_all(bytes: Seq<u8>) -> Seq<Option<OpCode>> {
    Seq::new(
        (bytes.len() / 2) as nat,
        |i: int| decode(word_of(bytes[2 * i], bytes[2 * i + 1])),
    )
}

/// Decodes every full two-byte word of `bytes`, in order.
pub fn disassemble_bytes(bytes: &[u8]) -> (ops: Vec<Option<OpCode>>)
    ensures
        ops@ == decode_all(bytes@),
{
    let mut ops: Vec<Option<OpCode>> = Vec::new();
    let len: usize = bytes.len();
    let count: usize = len / 2;
    let mut i: usize = 0;
    while i < count
        invariant
            len == bytes@.len(),
            count == len / 2,
            i <= count,
            ops@.len() == i,
            forall|k: int|
                0 <= k < i ==> ops@[k] == decode(word_of(bytes@[2 * k], bytes@[2 * k + 1])),
        decreases count - i,
    {
        let hi: u8 = bytes[2 * i];
        let lo: u8 = bytes[2 * i + 1];
        let word: u16 = (hi as u16) * 0x100 + (lo as u16);
        ops.push(disassemble_word(word));
        i += 1;
    }
    assert(ops@ =~= decode_all(bytes@));
    ops
}

/// Decodes one instruction word.
pub fn disassemble_word(word: u16) -> (op: Option<OpCode>)
    ensures
        op == decode(word),
        op matches Some(o) ==> o.well_formed(),
{
    let op_1: u8 = ((word & 0xF000) >> 12) as u8;
    let op_2: u8 = ((word & 0x0F00) >> 8) as u8;
    let op_3: u8 = ((word & 0x00F0) >> 4) as u8;
    let op_4: u8 = (word & 0x000F) as u8;

    let x: u8 = op_2;
    let y: u8 = op_3;
    let nnn: u16 = word & 0x0FFF;
    let nn: u8 = (word & 0x00FF) as u8;
    let n: u8 = op_4;

    proof {
        assert(((word & 0xF000) >> 12) == word / 0x1000) by (bit_vector);
        assert(((word & 0x0F00) >> 8) == (word / 0x100) % 0x10) by (bit_vector);
        assert(((word & 0x00F0) >> 4) == (word / 0x10) % 0x10) by (bit_vector);
        assert((word & 0x000F) == word % 0x10) by (bit_vector);
        assert((word & 0x0FFF) == word % 0x1000) by (bit_vector);
        assert((word & 0x00FF) == word % 0x100) by (bit_vector);
        assert(nn == n + 0x10 * y);
        lemma_decoded_is_well_formed(word);
    }

    match (op_1, op_2, op_3, op_4) {
        (0x0, 0x0, 0xE, 0x0) => Some(OpCode::ClearDisplay),
        (0x0, 0x0, 0xE, 0xE) => Some(OpCode::Return),
        (0x1, _, _, _) => Some(OpCode::Jump(nnn)),
        (0x2, _, _, _) => Some(OpCode::Call(nnn)),
        (0x3, _, _, _) => Some(OpCode::SkipEqVal(x, nn)),
        (0x4, _, _, _) => Some(OpCode::SkipNotEqVal(x, nn)),
        (0x5, _, _, 0x0) => Some(OpCode::SkipEq(x, y)),
        (0x6, _, _, _) => Some(OpCode::SetVal(x, nn)),
        (0x7, _, _, _) => Some(OpCode::AddVal(x, nn)),
        (0x8, _, _, 0x0) => Some(OpCode::Copy(x, y)),
        (0x8, _, _, 0x1) => Some(OpCode::Or(x, y)),
        (0x8, _, _, 0x2) => Some(OpCode::And(x, y)),
        (0x8, _, _, 0x3) => Some(OpCode::Xor(x, y)),
        (0x8, _, _, 0x4) => Some(OpCode::Add(x, y)),
        (0x8, _, _, 0x5) => Some(OpCode::Subtract(x, y)),
        (0x8, _, _, 0x6) => Some(OpCode::ShiftRight(x)),
        (0x8, _, _, 0x7) => Some(OpCode::Difference(x, y)),
        (0x8, _, _, 0xE) => Some(OpCode::ShiftLeft(x)),
        (0x9, _, _, 0x0) => Some(OpCode::SkipNotEq(x, y)),
        (0xA, _, _, _) => Some(OpCode::SetIndex(nnn)),
        (0xB, _, _, _) => Some(OpCode::JumpOffset(nnn)),
        (0xC, _, _, _) => Some(OpCode::Rand(x, nn)),
        (0xD, _, _, _) => Some(OpCode::DrawSprite(x, y, n)),
        (0xE, _, 0x9, 0xE) => Some(OpCode::SkipKeyPressed(x)),
        (0xE, _, 0xA, 0x1) => Some(OpCode::SkipKeyNotPressed(x)),
        (0xF, _, 0x0, 0x7) => Some(OpCode::GetDelayTimer(x)),
        (0xF, _, 0x0, 0xA) => Some(OpCode::GetKeyPress(x)),
        (0xF, _, 0x1, 0x5) => Some(OpCode::SetDelayTimer(x)),
        (0xF, _, 0x1, 0x8) => Some(OpCode::SetSoundTimer(x)),
        (0xF, _, 0x1, 0xE) => Some(OpCode::AddIndex(x)),
        (0xF, _, 0x2, 0x9) => Some(OpCode::SetIndexCharacter(x)),
        (0xF, _, 0x3, 0x3) => Some(OpCode::StoreBCD(x)),
        (0xF, _, 0x5, 0x5) => Some(OpCode::RegDump(x)),
        (0xF, _, 0x6, 0x5) => Some(OpCode::RegLoad(x)),
        _ => None,
    }
}

/// Whatever a word decodes to has operands that fit their digits.
pub proof fn lemma_decoded_is_well_formed(word: u16)
    ensures
        decode(word) matches Some(op) ==> op.well_formed(),
{
}

/// A word with the digit that its operation ignores set to zero: the third
/// digit of the two shifts. Every other word is left as it is.
pub open spec fn significant_digits(word: u16) -> int {
    if family(word) == 0x8 && (digit_n(word) == 0x6 || digit_n(word) == 0xE) {
        word - digit_y(word) * 0x10
    } else {
        word as int
    }
}

/// The four digits of a word written out digit by digit.
proof fn lemma_digits_of_sum(f: u16, x: u16, y: u16, n: u16)
    requires
        f < 16,
        x < 16,
        y < 16,
        n < 16,
    ensures
        f * 0x1000 + x * 0x100 + y * 0x10 + n <= 0xFFFF,
        family((f * 0x1000 + x * 0x100 + y * 0x10 + n) as u16) == f,
        digit_x((f * 0x1000 + x * 0x100 + y * 0x10 + n) as u16) == x,
        digit_y((f * 0x1000 + x * 0x100 + y * 0x10 + n) as u16) == y,
        digit_n((f * 0x1000 + x * 0x100 + y * 0x10 + n) as u16) == n,
        low_byte((f * 0x1000 + x * 0x100 + y * 0x10 + n) as u16) == y * 0x10 + n,
        low_address((f * 0x1000 + x * 0x100 + y * 0x10 + n) as u16) == x * 0x100 + y * 0x10 + n,
{
    let w: u16 = (f * 0x1000 + x * 0x100 + y * 0x10 + n) as u16;
    assert(w / 0x1000 == f && (w / 0x100) % 0x10 == x && (w / 0x10) % 0x10 == y && w % 0x10 == n
        && w % 0x100 == y * 0x10 + n && w % 0x1000 == x * 0x100 + y * 0x10 + n) by (bit_vector)
        requires
            f < 16,
            x < 16,
            y < 16,
            n < 16,
            w == f * 0x1000 + x * 0x100 + y * 0x10 + n,
    ;
}

/// A word is the sum of its four digits, each at its place.
proof fn lemma_sum_of_digits(word: u16)
    ensures
        word == family(word) * 0x1000 + digit_x(word) * 0x100 + digit_y(word) * 0x10 + digit_n(
            word,
        ),
        low_byte(word) == digit_y(word) * 0x10 + digit_n(word),
        low_address(word) == digit_x(word) * 0x100 + digit_y(word) * 0x10 + digit_n(word),
        family(word) < 16,
        digit_x(word) < 16,
        digit_y(word) < 16,
        digit_n(word) < 16,
{
}

/// Decoding undoes encoding: the word that encodes a well-formed operation
/// fits in 16 bits and decodes to that operation, with every operand as
/// it was.
pub proof fn lemma_decode_inverts_encoding(op: OpCode)
    requires
        op.well_formed(),
    ensures
        0 <= op.encoding() <= 0xFFFF,
        decode(op.encoding() as u16) == Some(op),
{
    match op {
        OpCode::ClearDisplay => lemma_digits_of_sum(0x0, 0x0, 0xE, 0x0),
        OpCode::Return => lemma_digits_of_sum(0x0, 0x0, 0xE, 0xE),
        OpCode::Jump(a) => lemma_digits_of_sum(0x1, a / 0x100, (a / 0x10) % 0x10, a % 0x10),
        OpCode::Call(a) => lemma_digits_of_sum(0x2, a / 0x100, (a / 0x10) % 0x10, a % 0x10),
        OpCode::SkipEqVal(x, v) => lemma_digits_of_sum(0x3, x as u16, (v / 0x10) as u16, (v % 0x10) as u16),
        OpCode::SkipNotEqVal(x, v) => lemma_digits_of_sum(0x4, x as u16, (v / 0x10) as u16, (v % 0x10) as u16),
        OpCode::SkipEq(x, y) => lemma_digits_of_sum(0x5, x as u16, y as u16, 0x0),
        OpCode::SetVal(x, v) => lemma_digits_of_sum(0x6, x as u16, (v / 0x10) as u16, (v % 0x10) as u16),
        OpCode::AddVal(x, v) => lemma_digits_of_sum(0x7, x as u16, (v / 0x10) as u16, (v % 0x10) as u16),
        OpCode::Copy(x, y) => lemma_digits_of_sum(0x8, x as u16, y as u16, 0x0),
        OpCode::Or(x, y) => lemma_digits_of_sum(0x8, x as u16, y as u16, 0x1),
        OpCode::And(x, y) => lemma_digits_of_sum(0x8, x as u16, y as u16, 0x2),
        OpCode::Xor(x, y) => lemma_digits_of_sum(0x8, x as u16, y as u16, 0x3),
        OpCode::Add(x, y) => lemma_digits_of_sum(0x8, x as u16, y as u16, 0x4),
        OpCode::Subtract(x, y) => lemma_digits_of_sum(0x8, x as u16, y as u16, 0x5),
        OpCode::ShiftRight(x) => lemma_digits_of_sum(0x8, x as u16, 0x0, 0x6),
        OpCode::Difference(x, y) => lemma_digits_of_sum(0x8, x as u16, y as u16, 0x7),
        OpCode::ShiftLeft(x) => lemma_digits_of_sum(0x8, x as u16, 0x0, 0xE),
        OpCode::SkipNotEq(x, y) => lemma_digits_of_sum(0x9, x as u16, y as u16, 0x0),
        OpCode::SetIndex(a) => lemma_digits_of_sum(0xA, a / 0x100, (a / 0x10) % 0x10, a % 0x10),
        OpCode::JumpOffset(a) => lemma_digits_of_sum(
            0xB,
            a / 0x100,
            (a / 0x10) % 0x10,
            a % 0x10,
        ),
        OpCode::Rand(x, v) => lemma_digits_of_sum(0xC, x as u16, (v / 0x10) as u16, (v % 0x10) as u16),
        OpCode::DrawSprite(x, y, n) => lemma_digits_of_sum(0xD, x as u16, y as u16, n as u16),
        OpCode::SkipKeyPressed(x) => lemma_digits_of_sum(0xE, x as u16, 0x9, 0xE),
        OpCode::SkipKeyNotPressed(x) => lemma_digits_of_sum(0xE, x as u16, 0xA, 0x1),
        OpCode::GetDelayTimer(x) => lemma_digits_of_sum(0xF, x as u16, 0x0, 0x7),
        OpCode::GetKeyPress(x) => lemma_digits_of_sum(0xF, x as u16, 0x0, 0xA),
        OpCode::SetDelayTimer(x) => lemma_digits_of_sum(0xF, x as u16, 0x1, 0x5),
        OpCode::SetSoundTimer(x) => lemma_digits_of_sum(0xF, x as u16, 0x1, 0x8),
        OpCode::AddIndex(x) => lemma_digits_of_sum(0xF, x as u16, 0x1, 0xE),
        OpCode::SetIndexCharacter(x) => lemma_digits_of_sum(0xF, x as u16, 0x2, 0x9),
        OpCode::StoreBCD(x) => lemma_digits_of_sum(0xF, x as u16, 0x3, 0x3),
        OpCode::RegDump(x) => lemma_digits_of_sum(0xF, x as u16, 0x5, 0x5),
        OpCode::RegLoad(x) => lemma_digits_of_sum(0xF, x as u16, 0x6, 0x5),
    }
}

/// A decoded operation determines the word it came from, up to the digit
/// that the operation ignores.
pub proof fn lemma_encoding_inverts_decode(word: u16)
    ensures
        decode(word) matches Some(op) ==> op.encoding() == significant_digits(word),
{
    lemma_sum_of_digits(word);
}

/// A word is unrecognized exactly when no well-formed operation is encoded
/// by its significant digits: the table of instructions is all there is.
pub proof fn lemma_unrecognized_iff_outside_table(word: u16)
    ensures
        decode(word) is None <==> forall|op: OpCode|
            op.well_formed() ==> #[trigger] op.encoding() != significant_digits(word),
{
    lemma_encoding_inverts_decode(word);
    lemma_decoded_is_well_formed(word);
    if decode(word) is None {
        assert forall|op: OpCode| op.well_formed() implies #[trigger] op.encoding()
            != significant_digits(word) by {
            if op.encoding() == significant_digits(word) {
                lemma_decode_inverts_encoding(op);
                let canon: u16 = significant_digits(word) as u16;
                assert(decode(canon) == Some(op));
                assert(decode(canon) is Some ==> decode(word) is Some);
            }
        }
    }
}

} // verus!
