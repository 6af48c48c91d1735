use syskit::word::{
    align_addr_to_word, byte_offset, extract_byte, replace_byte, TRAP_LENGTH, TRAP_OPCODE,
    WORD_BYTES,
};

#[test]
fn constants_of_the_target() {
    assert_eq!(WORD_BYTES, 8);
    assert_eq!(TRAP_OPCODE, 0xcc);
    assert_eq!(TRAP_LENGTH, 1);
}

#[test]
fn align_rounds_down_to_a_word() {
    assert_eq!(align_addr_to_word(0), 0);
    assert_eq!(align_addr_to_word(7), 0);
    assert_eq!(align_addr_to_word(8), 8);
    assert_eq!(align_addr_to_word(0x4011a3), 0x4011a0);
    assert_eq!(align_addr_to_word(0x4011af), 0x4011a8);
    assert_eq!(align_addr_to_word(usize::MAX), usize::MAX - 7);
}

#[test]
fn align_agrees_with_masking() {
    let mut addr: usize = 0x7ffe_e000;
    while addr < 0x7ffe_e040 {
        assert_eq!(align_addr_to_word(addr), addr & !7);
        assert_eq!(byte_offset(addr), addr & 7);
        assert_eq!(align_addr_to_word(addr) + byte_offset(addr), addr);
        addr += 1;
    }
}

#[test]
fn extract_byte_reads_little_endian_positions() {
    let word: u64 = 0x0807_0605_0403_0201;
    for offset in 0..8 {
        assert_eq!(extract_byte(word, offset), (offset as u8) + 1);
    }
    assert_eq!(extract_byte(u64::MAX, 7), 0xff);
    assert_eq!(extract_byte(0, 3), 0);
}

#[test]
fn replace_byte_changes_one_byte_only() {
    let word: u64 = 0x0807_0605_0403_0201;
    assert_eq!(replace_byte(word, 0, 0xcc), 0x0807_0605_0403_02cc);
    assert_eq!(replace_byte(word, 3, 0xcc), 0x0807_0605_cc03_0201);
    assert_eq!(replace_byte(word, 7, 0xcc), 0xcc07_0605_0403_0201);
    assert_eq!(replace_byte(word, 7, 0x00), 0x0007_0605_0403_0201);
    for offset in 0..8 {
        let patched = replace_byte(word, offset, TRAP_OPCODE);
        for other in 0..8 {
            let expected = if other == offset { TRAP_OPCODE } else { extract_byte(word, other) };
            assert_eq!(extract_byte(patched, other), expected);
        }
    }
}

#[test]
fn patch_then_restore_gives_the_word_back() {
    let words = [0u64, u64::MAX, 0x0807_0605_0403_0201, 0xcccc_cccc_cccc_cccc, 0x8000_0000_0000_0001];
    for word in words {
        for offset in 0..8 {
            let original = extract_byte(word, offset);
            let armed = replace_byte(word, offset, TRAP_OPCODE);
            assert_eq!(extract_byte(armed, offset), TRAP_OPCODE);
            assert_eq!(replace_byte(armed, offset, original), word);
        }
    }
}
