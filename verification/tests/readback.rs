use slate_framework::readback::aligned_bytes_per_row;

#[test]
fn rows_round_up_to_256_bytes() {
    assert_eq!(aligned_bytes_per_row(0), 0);
    assert_eq!(aligned_bytes_per_row(1), 256);
    assert_eq!(aligned_bytes_per_row(64), 256);
    assert_eq!(aligned_bytes_per_row(65), 512);
    assert_eq!(aligned_bytes_per_row(800), 3328);
}

#[test]
fn unpad_rows_drops_row_padding() {
    // 2x2 image, rows padded to 12 bytes.
    let mut data = vec![0u8; 24];
    for i in 0..8 {
        data[i] = i as u8 + 1;
        data[12 + i] = i as u8 + 101;
    }
    let px = slate_framework::readback::unpad_rows(&data, 2, 2, 12);
    assert_eq!(px, vec![1, 2, 3, 4, 5, 6, 7, 8, 101, 102, 103, 104, 105, 106, 107, 108]);
    assert!(slate_framework::readback::unpad_rows(&data, 2, 0, 12).is_empty());
}
