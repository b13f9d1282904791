use chip8::disassembler::{disassemble_bytes, disassemble_word, OpCode};

#[test]
fn decodes_clear_display_and_return() {
    assert_eq!(disassemble_word(0x00E0), Some(OpCode::ClearDisplay));
    assert_eq!(disassemble_word(0x00EE), Some(OpCode::Return));
}

#[test]
fn decodes_jumps_and_calls_with_their_address() {
    assert_eq!(disassemble_word(0x1ABC), Some(OpCode::Jump(0xABC)));
    assert_eq!(disassemble_word(0x1000), Some(OpCode::Jump(0x000)));
    assert_eq!(disassemble_word(0x2FFF), Some(OpCode::Call(0xFFF)));
    assert_eq!(disassemble_word(0xA123), Some(OpCode::SetIndex(0x123)));
    assert_eq!(disassemble_word(0xB456), Some(OpCode::JumpOffset(0x456)));
}

#[test]
fn decodes_register_and_byte_operations() {
    assert_eq!(disassemble_word(0x3A42), Some(OpCode::SkipEqVal(0xA, 0x42)));
    assert_eq!(disassemble_word(0x4B00), Some(OpCode::SkipNotEqVal(0xB, 0x00)));
    assert_eq!(disassemble_word(0x61FF), Some(OpCode::SetVal(0x1, 0xFF)));
    assert_eq!(disassemble_word(0x7F01), Some(OpCode::AddVal(0xF, 0x01)));
    assert_eq!(disassemble_word(0xC30F), Some(OpCode::Rand(0x3, 0x0F)));
}

#[test]
fn decodes_two_register_operations() {
    assert_eq!(disassemble_word(0x5120), Some(OpCode::SkipEq(1, 2)));
    assert_eq!(disassemble_word(0x8AB0), Some(OpCode::Copy(0xA, 0xB)));
    assert_eq!(disassemble_word(0x8AB1), Some(OpCode::Or(0xA, 0xB)));
    assert_eq!(disassemble_word(0x8AB2), Some(OpCode::And(0xA, 0xB)));
    assert_eq!(disassemble_word(0x8AB3), Some(OpCode::Xor(0xA, 0xB)));
    assert_eq!(disassemble_word(0x8AB4), Some(OpCode::Add(0xA, 0xB)));
    assert_eq!(disassemble_word(0x8AB5), Some(OpCode::Subtract(0xA, 0xB)));
    assert_eq!(disassemble_word(0x8AB7), Some(OpCode::Difference(0xA, 0xB)));
    assert_eq!(disassemble_word(0x9CD0), Some(OpCode::SkipNotEq(0xC, 0xD)));
}

#[test]
fn decodes_shifts_whatever_the_third_digit() {
    assert_eq!(disassemble_word(0x8A06), Some(OpCode::ShiftRight(0xA)));
    assert_eq!(disassemble_word(0x8AB6), Some(OpCode::ShiftRight(0xA)));
    assert_eq!(disassemble_word(0x8A0E), Some(OpCode::ShiftLeft(0xA)));
    assert_eq!(disassemble_word(0x8AFE), Some(OpCode::ShiftLeft(0xA)));
}

#[test]
fn decodes_draw_sprite_with_three_operands() {
    assert_eq!(disassemble_word(0xD125), Some(OpCode::DrawSprite(1, 2, 5)));
    assert_eq!(disassemble_word(0xDFE0), Some(OpCode::DrawSprite(0xF, 0xE, 0)));
}

#[test]
fn decodes_key_operations() {
    assert_eq!(disassemble_word(0xE79E), Some(OpCode::SkipKeyPressed(7)));
    assert_eq!(disassemble_word(0xE7A1), Some(OpCode::SkipKeyNotPressed(7)));
    assert_eq!(disassemble_word(0xF70A), Some(OpCode::GetKeyPress(7)));
}

#[test]
fn decodes_timer_index_and_memory_operations() {
    assert_eq!(disassemble_word(0xF307), Some(OpCode::GetDelayTimer(3)));
    assert_eq!(disassemble_word(0xF315), Some(OpCode::SetDelayTimer(3)));
    assert_eq!(disassemble_word(0xF318), Some(OpCode::SetSoundTimer(3)));
    assert_eq!(disassemble_word(0xF31E), Some(OpCode::AddIndex(3)));
    assert_eq!(disassemble_word(0xF329), Some(OpCode::SetIndexCharacter(3)));
    assert_eq!(disassemble_word(0xF333), Some(OpCode::StoreBCD(3)));
    assert_eq!(disassemble_word(0xF355), Some(OpCode::RegDump(3)));
    assert_eq!(disassemble_word(0xF365), Some(OpCode::RegLoad(3)));
}

#[test]
fn words_outside_the_table_are_unrecognized() {
    for word in [
        0x0000u16, 0x00E1, 0x00EF, 0x01E0, 0x0FFF, 0x5001, 0x512F, 0x8008, 0x800D, 0x800F, 0x9001,
        0xE000, 0xE09F, 0xE0A0, 0xF000, 0xF008, 0xF056, 0xF0FF, 0xFFFF,
    ] {
        assert_eq!(disassemble_word(word), None, "word {:04X}", word);
    }
}

#[test]
fn the_table_has_34_operations_and_43954_words() {
    let mut recognized: u32 = 0;
    let mut kinds: Vec<String> = Vec::new();
    for word in 0..=0xFFFFu16 {
        if let Some(op) = disassemble_word(word) {
            recognized += 1;
            let text = format!("{:?}", op);
            let kind = match text.find('(') {
                Some(at) => text[..at].to_string(),
                None => text,
            };
            if !kinds.contains(&kind) {
                kinds.push(kind);
            }
        }
    }
    assert_eq!(kinds.len(), 34);
    assert_eq!(recognized, 2 + 10 * 4096 + 2 * 256 + 9 * 256 + 2 * 16 + 9 * 16);
}

#[test]
fn decoded_operands_are_the_digits_of_the_word() {
    for word in 0..=0xFFFFu16 {
        let x = ((word >> 8) & 0xF) as u8;
        let y = ((word >> 4) & 0xF) as u8;
        let n = (word & 0xF) as u8;
        let nn = (word & 0xFF) as u8;
        let nnn = word & 0xFFF;
        match disassemble_word(word) {
            Some(OpCode::Jump(a)) | Some(OpCode::Call(a)) | Some(OpCode::SetIndex(a))
            | Some(OpCode::JumpOffset(a)) => assert_eq!(a, nnn),
            Some(OpCode::SkipEqVal(rx, v))
            | Some(OpCode::SkipNotEqVal(rx, v))
            | Some(OpCode::SetVal(rx, v))
            | Some(OpCode::AddVal(rx, v))
            | Some(OpCode::Rand(rx, v)) => assert_eq!((rx, v), (x, nn)),
            Some(OpCode::DrawSprite(rx, ry, count)) => assert_eq!((rx, ry, count), (x, y, n)),
            Some(OpCode::SkipEq(rx, ry))
            | Some(OpCode::Copy(rx, ry))
            | Some(OpCode::Or(rx, ry))
            | Some(OpCode::And(rx, ry))
            | Some(OpCode::Xor(rx, ry))
            | Some(OpCode::Add(rx, ry))
            | Some(OpCode::Subtract(rx, ry))
            | Some(OpCode::Difference(rx, ry))
            | Some(OpCode::SkipNotEq(rx, ry)) => assert_eq!((rx, ry), (x, y)),
            Some(OpCode::ShiftRight(rx))
            | Some(OpCode::ShiftLeft(rx))
            | Some(OpCode::SkipKeyPressed(rx))
            | Some(OpCode::SkipKeyNotPressed(rx))
            | Some(OpCode::GetDelayTimer(rx))
            | Some(OpCode::GetKeyPress(rx))
            | Some(OpCode::SetDelayTimer(rx))
            | Some(OpCode::SetSoundTimer(rx))
            | Some(OpCode::AddIndex(rx))
            | Some(OpCode::SetIndexCharacter(rx))
            | Some(OpCode::StoreBCD(rx))
            | Some(OpCode::RegDump(rx))
            | Some(OpCode::RegLoad(rx)) => assert_eq!(rx, x),
            Some(OpCode::ClearDisplay) => assert_eq!(word, 0x00E0),
            Some(OpCode::Return) => assert_eq!(word, 0x00EE),
            None => {}
        }
    }
}

#[test]
fn disassembles_bytes_in_pairs_high_byte_first() {
    let ops = disassemble_bytes(&[0x00, 0xE0, 0x12, 0x34, 0xFF, 0xFF, 0x6A, 0x07]);
    assert_eq!(
        ops,
        vec![
            Some(OpCode::ClearDisplay),
            Some(OpCode::Jump(0x234)),
            None,
            Some(OpCode::SetVal(0xA, 0x07)),
        ]
    );
}

#[test]
fn disassembling_leaves_out_a_trailing_odd_byte() {
    assert_eq!(disassemble_bytes(&[0x00, 0xEE, 0x12]), vec![Some(OpCode::Return)]);
    assert_eq!(disassemble_bytes(&[0x12]), vec![]);
    assert_eq!(disassemble_bytes(&[]), vec![]);
}
