use mini_dbg::target::{align_addr_to_word, mask_to_byte_size, write_byte_in_word, TRAP_BYTE};

#[test]
fn align_rounds_down_to_word() {
    assert_eq!(align_addr_to_word(0x1000), 0x1000);
    assert_eq!(align_addr_to_word(0x1007), 0x1000);
    assert_eq!(align_addr_to_word(0x1008), 0x1008);
    assert_eq!(align_addr_to_word(0), 0);
    assert_eq!(align_addr_to_word(usize::MAX), usize::MAX - 7);
}

#[test]
fn write_byte_extracts_displaced_byte() {
    let word: u64 = 0x1122334455667788;
    let (updated, orig) = write_byte_in_word(word, 0, TRAP_BYTE);
    assert_eq!(orig, 0x88);
    assert_eq!(updated, 0x11223344556677CC);
    let (updated, orig) = write_byte_in_word(word, 7, 0xAB);
    assert_eq!(orig, 0x11);
    assert_eq!(updated, 0xAB22334455667788);
}

#[test]
fn write_byte_round_trip_restores_word() {
    // Install the trap byte, then write the displaced byte back: the word is
    // exactly as before, at every position.
    let word: u64 = 0x1122334455667788;
    for k in 0..8u64 {
        let (patched, orig) = write_byte_in_word(word, k, TRAP_BYTE);
        let (restored, trap) = write_byte_in_word(patched, k, orig);
        assert_eq!(trap, TRAP_BYTE);
        assert_eq!(restored, word);
    }
}

#[test]
fn mask_keeps_low_bytes() {
    assert_eq!(mask_to_byte_size(0x123456789ABCDEF0, 4), 0x9ABCDEF0);
    assert_eq!(mask_to_byte_size(0x123456789ABCDEF0, 1), 0xF0);
    assert_eq!(mask_to_byte_size(0x123456789ABCDEF0, 0), 0);
    assert_eq!(mask_to_byte_size(0x123456789ABCDEF0, 8), 0x123456789ABCDEF0);
    assert_eq!(mask_to_byte_size(0x123456789ABCDEF0, 200), 0x123456789ABCDEF0);
}

#[test]
fn local_readout_masks_to_type_size() {
    // A 4-byte int whose stack slot holds 42 in its low word reads as
    // 0x000000000000002a after masking.
    let raw: u64 = 0xFFFF_FFFF_0000_002A;
    assert_eq!(mask_to_byte_size(raw, 4), 0x2A);
    assert_eq!(format!("{:#018x}", mask_to_byte_size(raw, 4)), "0x000000000000002a");
}
