use deet::word::{align_addr_to_word, extract_byte, replace_byte, TRAP_BYTE, WORD_BYTES};

#[test]
fn align_rounds_down_to_the_word() {
    assert_eq!(align_addr_to_word(0x1000), 0x1000);
    assert_eq!(align_addr_to_word(0x1001), 0x1000);
    assert_eq!(align_addr_to_word(0x1007), 0x1000);
    assert_eq!(align_addr_to_word(0x1008), 0x1008);
    assert_eq!(align_addr_to_word(0), 0);
    assert_eq!(align_addr_to_word(7), 0);
    assert_eq!(align_addr_to_word(usize::MAX), usize::MAX - 7);
}

#[test]
fn align_leaves_an_offset_below_the_word_size() {
    for addr in 0x4000usize..0x4040 {
        let base = align_addr_to_word(addr);
        assert_eq!(base % WORD_BYTES, 0);
        assert!(base <= addr && addr - base < WORD_BYTES);
    }
}

#[test]
fn extract_byte_reads_little_endian() {
    let word: u64 = 0x1122334455667788;
    assert_eq!(extract_byte(word, 0), 0x88);
    assert_eq!(extract_byte(word, 1), 0x77);
    assert_eq!(extract_byte(word, 2), 0x66);
    assert_eq!(extract_byte(word, 3), 0x55);
    assert_eq!(extract_byte(word, 4), 0x44);
    assert_eq!(extract_byte(word, 5), 0x33);
    assert_eq!(extract_byte(word, 6), 0x22);
    assert_eq!(extract_byte(word, 7), 0x11);
}

#[test]
fn replace_byte_changes_one_byte() {
    let word: u64 = 0x1122334455667788;
    assert_eq!(replace_byte(word, 0, TRAP_BYTE), 0x11223344556677cc);
    assert_eq!(replace_byte(word, 1, TRAP_BYTE), 0x112233445566cc88);
    assert_eq!(replace_byte(word, 7, TRAP_BYTE), 0xcc22334455667788);
    assert_eq!(replace_byte(word, 3, 0x00), 0x1122334400667788);
    assert_eq!(replace_byte(0, 4, 0xff), 0x000000ff00000000);
    assert_eq!(replace_byte(u64::MAX, 4, 0), 0xffffff00ffffffff);
}

#[test]
fn trap_byte_is_int3() {
    assert_eq!(TRAP_BYTE, 0xcc);
    assert_eq!(WORD_BYTES, 8);
}

#[test]
fn saved_byte_restores_the_word() {
    let word: u64 = 0x0123456789abcdef;
    for offset in 0..8usize {
        let saved = extract_byte(word, offset);
        let armed = replace_byte(word, offset, TRAP_BYTE);
        assert_eq!(extract_byte(armed, offset), TRAP_BYTE);
        for other in 0..8usize {
            if other != offset {
                assert_eq!(extract_byte(armed, other), extract_byte(word, other));
            }
        }
        assert_eq!(replace_byte(armed, offset, saved), word);
    }
}

#[test]
fn step_over_leaves_the_trap_armed() {
    let word: u64 = 0x0123456789abcdef;
    for offset in 0..8usize {
        let saved = extract_byte(word, offset);
        let armed = replace_byte(word, offset, TRAP_BYTE);
        let restored = replace_byte(armed, offset, saved);
        let rearmed = replace_byte(restored, offset, TRAP_BYTE);
        assert_eq!(rearmed, armed);
    }
}

#[test]
fn last_patch_of_a_place_counts() {
    let word: u64 = 0xfedcba9876543210;
    let once = replace_byte(word, 5, 0x42);
    let twice = replace_byte(replace_byte(word, 5, 0x17), 5, 0x42);
    assert_eq!(once, twice);
}
