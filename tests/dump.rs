use hexdump::{dump_bytes, push_hex, DumpAction, HexDumper};

fn emitted(action: DumpAction) -> String {
    match action {
        DumpAction::Emit(s) => s,
        DumpAction::Finish(s) => panic!("unexpected last line {}", s),
    }
}

fn finished(action: DumpAction) -> String {
    match action {
        DumpAction::Finish(s) => s,
        DumpAction::Emit(s) => panic!("unexpected data line {}", s),
    }
}

#[test]
fn two_bytes_dump() {
    let lines = dump_bytes(&[0xaa, 0xbb], None);
    assert_eq!(
        lines,
        vec![
            "00000000 bbaa                                   ".to_string(),
            "00000002".to_string(),
        ]
    );
}

#[test]
fn sixteen_bytes_dump() {
    let lines = dump_bytes(&[0xff; 16], None);
    assert_eq!(
        lines,
        vec![
            "00000000 ffff ffff ffff ffff ffff ffff ffff ffff".to_string(),
            "00000010".to_string(),
        ]
    );
}

#[test]
fn five_bytes_dump() {
    let lines = dump_bytes(&[0xff; 5], None);
    assert_eq!(
        lines,
        vec![
            "00000000 ffff ffff 00ff                         ".to_string(),
            "00000005".to_string(),
        ]
    );
}

#[test]
fn empty_input_dump() {
    let lines = dump_bytes(&[], None);
    assert_eq!(lines, vec!["00000000".to_string()]);
}

#[test]
fn limit_of_four_on_twenty_bytes() {
    let data: Vec<u8> = (1u8..=20).collect();
    let lines = dump_bytes(&data, Some(4));
    assert_eq!(
        lines,
        vec![
            "00000000 0201 0403                              ".to_string(),
            "00000004".to_string(),
        ]
    );
}

#[test]
fn limit_above_length_takes_everything() {
    let lines = dump_bytes(&[0x10, 0x20, 0x30], Some(100));
    assert_eq!(
        lines,
        vec![
            "00000000 2010 0030                              ".to_string(),
            "00000003".to_string(),
        ]
    );
}

#[test]
fn limit_of_zero_reads_nothing() {
    let lines = dump_bytes(&[1, 2, 3], Some(0));
    assert_eq!(lines, vec!["00000000".to_string()]);
}

#[test]
fn long_input_spans_lines() {
    let data: Vec<u8> = (0u8..35).collect();
    let lines = dump_bytes(&data, None);
    assert_eq!(
        lines,
        vec![
            "00000000 0100 0302 0504 0706 0908 0b0a 0d0c 0f0e".to_string(),
            "00000010 1110 1312 1514 1716 1918 1b1a 1d1c 1f1e".to_string(),
            "00000020 2120 0022                              ".to_string(),
            "00000023".to_string(),
        ]
    );
}

#[test]
fn offsets_accumulate_over_uneven_chunks() {
    let mut dumper = HexDumper::new();
    let a = emitted(dumper.step(&[0x01, 0x02, 0x03], 3));
    assert_eq!(a, "00000000 0201 0003                              ");
    let b = emitted(dumper.step(&[0xab; 16], 16));
    assert_eq!(b, "00000003 abab abab abab abab abab abab abab abab");
    let c = emitted(dumper.step(&[0x7f, 0xff], 1));
    assert_eq!(c, "00000013 007f                                   ");
    assert_eq!(dumper.offset(), 20);
    let last = finished(dumper.step(&[0u8; 16], 0));
    assert_eq!(last, "00000014");
    assert_eq!(dumper.offset(), 20);
}

#[test]
fn hex_is_padded_but_never_cut() {
    let mut s = String::new();
    push_hex(&mut s, 0x1234, 8);
    assert_eq!(s, "00001234");
    let mut t = String::from("x");
    push_hex(&mut t, 0x1_2345_6789, 8);
    assert_eq!(t, "x123456789");
    let mut u = String::new();
    push_hex(&mut u, 0, 0);
    assert_eq!(u, "0");
}
