use deet::word::{
    align_addr_to_word, extract_byte, offset_in_word, patch_word, replace_byte, TRAP_BYTE,
    WORD_BYTES,
};

#[test]
fn aligns_down_to_a_multiple_of_eight() {
    assert_eq!(WORD_BYTES, 8);
    assert_eq!(align_addr_to_word(0), 0);
    assert_eq!(align_addr_to_word(7), 0);
    assert_eq!(align_addr_to_word(8), 8);
    assert_eq!(align_addr_to_word(0x4005b6), 0x4005b0);
    assert_eq!(align_addr_to_word(usize::MAX), usize::MAX - 7);
}

#[test]
fn offset_is_the_rest_of_the_address() {
    assert_eq!(offset_in_word(0x4005b6), 6);
    assert_eq!(offset_in_word(0x4005b0), 0);
    assert_eq!(offset_in_word(usize::MAX), 7);
}

#[test]
fn extracts_little_endian_bytes() {
    let word: u64 = 0x8877_6655_4433_2211;
    assert_eq!(extract_byte(word, 0), 0x11);
    assert_eq!(extract_byte(word, 1), 0x22);
    assert_eq!(extract_byte(word, 6), 0x77);
    assert_eq!(extract_byte(word, 7), 0x88);
}

#[test]
fn replaces_one_byte_and_keeps_seven() {
    let word: u64 = 0x8877_6655_4433_2211;
    assert_eq!(replace_byte(word, 0, TRAP_BYTE), 0x8877_6655_4433_22cc);
    assert_eq!(replace_byte(word, 3, TRAP_BYTE), 0x8877_6655_cc33_2211);
    assert_eq!(replace_byte(word, 7, TRAP_BYTE), 0xcc77_6655_4433_2211);
    assert_eq!(replace_byte(word, 7, 0), 0x0077_6655_4433_2211);
    assert_eq!(replace_byte(u64::MAX, 4, 0), 0xffff_ff00_ffff_ffff);
}

#[test]
fn patch_returns_the_displaced_byte_and_the_new_word() {
    let word: u64 = 0x8877_6655_4433_2211;
    assert_eq!(patch_word(word, 2, TRAP_BYTE), (0x33, 0x8877_6655_44cc_2211));
}

#[test]
fn patching_back_the_displaced_byte_restores_the_word() {
    let words: [u64; 4] = [0, u64::MAX, 0x8877_6655_4433_2211, 0xcccc_cccc_cccc_cccc];
    for word in words {
        for offset in 0..8 {
            let (original, patched) = patch_word(word, offset, TRAP_BYTE);
            let (displaced, restored) = patch_word(patched, offset, original);
            assert_eq!(displaced, TRAP_BYTE);
            assert_eq!(restored, word);
        }
    }
}
