use hexdump::{convert_to_hexdump_line, BYTES_PER_LINE};

#[test]
fn basic_hex() {
    let input = [0xffu8; BYTES_PER_LINE];
    let n = 16usize;
    let result = String::from("ffff ffff ffff ffff ffff ffff ffff ffff");
    assert_eq!(result, convert_to_hexdump_line(&input, n));
}

#[test]
fn hex_convert1() {
    let input = [0xffu8; BYTES_PER_LINE];
    let n = 5usize;
    let result = String::from("ffff ffff 00ff                         ");
    assert_eq!(result, convert_to_hexdump_line(&input, n));
}

#[test]
fn hex_with_0_len() {
    let input = [0xffu8; BYTES_PER_LINE];
    let n = 0usize;
    let result = String::from("                                       ");
    assert_eq!(result, convert_to_hexdump_line(&input, n));
}

#[test]
fn little_endian_hex() {
    let input = [0xaau8, 0xbb, 0, 0, 0, 0, 0, 0, 0, 0, 0, 0, 0, 0, 0, 0];
    let n = 16usize;
    let result = String::from("bbaa 0000 0000 0000 0000 0000 0000 0000");
    assert_eq!(result, convert_to_hexdump_line(&input, n));
}

#[test]
fn line_width_is_fixed_for_every_count() {
    let input: Vec<u8> = (0u8..16).map(|b| b.wrapping_mul(37)).collect();
    for n in 0..=16usize {
        let line = convert_to_hexdump_line(&input, n);
        assert_eq!(line.len(), 39, "count {}", n);
    }
}

#[test]
fn same_valid_bytes_give_same_line() {
    let a = [1u8, 2, 3, 4, 5, 6, 7, 8, 9, 10, 11, 12, 13, 14, 15, 16];
    let mut b = a;
    b[7] = 0xee;
    b[15] = 0x00;
    assert_eq!(convert_to_hexdump_line(&a, 7), convert_to_hexdump_line(&a, 7));
    assert_eq!(convert_to_hexdump_line(&a, 7), convert_to_hexdump_line(&b, 7));
    assert_eq!(convert_to_hexdump_line(&a, 7), "0201 0403 0605 0007                    ");
}

#[test]
fn pair_reads_high_byte_second() {
    let input = [0x34u8, 0x12, 0x00, 0x01, 0x0f, 0xa0, 0xff, 0x00];
    assert_eq!(
        convert_to_hexdump_line(&input, 8),
        "1234 0100 a00f 00ff                    "
    );
}

#[test]
fn lone_trailing_byte_has_zero_high_byte() {
    let input = [0x01u8, 0x02, 0x7c];
    assert_eq!(
        convert_to_hexdump_line(&input, 3),
        "0201 007c                              "
    );
}

#[test]
fn short_buffer_with_no_valid_byte_is_blank() {
    let input: [u8; 0] = [];
    assert_eq!(convert_to_hexdump_line(&input, 0), " ".repeat(39));
}
