use hexdump::{parse_length, Args};

fn args(words: &[&str]) -> Vec<String> {
    words.iter().map(|w| w.to_string()).collect()
}

fn parse_err(words: &[&str]) -> String {
    match Args::parse(args(words)) {
        Ok(a) => panic!("parsed, file {}", a.file_path()),
        Err(e) => e,
    }
}

#[test]
fn file_only() {
    let a = Args::parse(args(&["hd", "data.bin"])).unwrap();
    assert_eq!(a.program_name(), "hd");
    assert_eq!(a.file_path(), "data.bin");
    assert_eq!(a.byte_limit(), None);
}

#[test]
fn length_before_and_after_file() {
    let a = Args::parse(args(&["hd", "-n", "4", "f"])).unwrap();
    assert_eq!(a.byte_limit(), Some(4));
    assert_eq!(a.file_path(), "f");
    let b = Args::parse(args(&["hd", "f", "-n", "+20"])).unwrap();
    assert_eq!(b.byte_limit(), Some(20));
    let c = Args::parse(args(&["hd", "-n", "1", "f", "-n", "2"])).unwrap();
    assert_eq!(c.byte_limit(), Some(2));
}

#[test]
fn first_file_wins() {
    let a = Args::parse(args(&["hd", "one", "two"])).unwrap();
    assert_eq!(a.file_path(), "one");
}

#[test]
fn no_arguments_at_all() {
    assert_eq!(parse_err(&[]), "Error");
}

#[test]
fn missing_file_is_usage_error() {
    assert_eq!(parse_err(&["hd"]), "Usage: hd [-n LEN] FILE");
    assert_eq!(parse_err(&["hd", "-n", "3"]), "Usage: hd [-n LEN] FILE");
}

#[test]
fn trailing_flag_is_usage_error() {
    assert_eq!(parse_err(&["hd", "f", "-n"]), "Usage: hd [-n LEN] FILE");
}

#[test]
fn bad_length_is_reported() {
    assert_eq!(
        parse_err(&["hd", "-n", "4x", "f"]),
        "Invalid length: 4x\nUsage: hd [-n LEN] FILE"
    );
    assert_eq!(
        parse_err(&["hd", "-n", "-1", "f"]),
        "Invalid length: -1\nUsage: hd [-n LEN] FILE"
    );
}

#[test]
fn lengths_read_as_std_does() {
    for text in ["0", "7", "+7", "0012", "18446744073709551615", "18446744073709551616", "", "+", "-0", " 1", "1 ", "1_0", "++1"] {
        assert_eq!(parse_length(&text.to_string()), text.parse::<u64>().ok(), "text {:?}", text);
    }
    assert_eq!(parse_length(&"18446744073709551615".to_string()), Some(u64::MAX));
    assert_eq!(parse_length(&"99999999999999999999999".to_string()), None);
}
