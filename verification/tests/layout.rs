use rustycraft::layout::{
    chunk_dir, chunk_path, parse_seed, push_decimal, push_signed_decimal, seed_path, seed_text,
    world_dir,
};

#[test]
fn world_files_follow_the_layout() {
    assert_eq!(world_dir("world"), "worlds/world");
    assert_eq!(seed_path("worlds/world"), "worlds/world/seed");
    assert_eq!(chunk_dir("worlds/world"), "worlds/world/chunks");
    assert_eq!(chunk_path("worlds/world/chunks", 0, 0), "worlds/world/chunks/0_0");
    assert_eq!(chunk_path("worlds/world/chunks", -1, 12), "worlds/world/chunks/-1_12");
    assert_eq!(chunk_path("d", 100, -205), "d/100_-205");
}

#[test]
fn chunk_path_handles_the_ends_of_the_range() {
    assert_eq!(
        chunk_path("c", i32::MIN, i32::MAX),
        "c/-2147483648_2147483647"
    );
}

#[test]
fn chunk_path_is_what_formatting_gives() {
    for x in vec![-1000i32, -16, -1, 0, 1, 9, 10, 99, 100, 12345] {
        for z in vec![-7i32, 0, 7, 70, 700] {
            assert_eq!(chunk_path("w/chunks", x, z), format!("{}/{}_{}", "w/chunks", x, z));
        }
    }
}

#[test]
fn decimal_has_no_leading_zeros() {
    let mut out = String::from("n=");
    push_decimal(&mut out, 0);
    assert_eq!(out, "n=0");
    push_decimal(&mut out, 7);
    push_decimal(&mut out, 10);
    push_decimal(&mut out, 1005);
    assert_eq!(out, "n=07101005");
    let mut out = String::new();
    push_decimal(&mut out, u64::MAX);
    assert_eq!(out, "18446744073709551615");
}

#[test]
fn signed_decimal_puts_a_minus_before_negative_numbers() {
    let mut out = String::new();
    push_signed_decimal(&mut out, -42);
    assert_eq!(out, "-42");
    push_signed_decimal(&mut out, 42);
    assert_eq!(out, "-4242");
    let mut out = String::new();
    push_signed_decimal(&mut out, 0);
    assert_eq!(out, "0");
}

#[test]
fn seed_text_is_the_decimal_seed() {
    assert_eq!(seed_text(1234), "1234");
    assert_eq!(seed_text(0), "0");
    assert_eq!(seed_text(u32::MAX), "4294967295");
}

#[test]
fn parse_seed_reads_what_seed_text_wrote() {
    for seed in vec![0u32, 1, 9, 10, 1234, 99999, 4294967294, u32::MAX] {
        assert_eq!(parse_seed(seed_text(seed).as_str()), Some(seed));
    }
}

#[test]
fn parse_seed_accepts_a_plus_sign_and_leading_zeros() {
    assert_eq!(parse_seed("+17"), Some(17));
    assert_eq!(parse_seed("0017"), Some(17));
    assert_eq!(parse_seed("+000"), Some(0));
    assert_eq!(parse_seed("00000000000000000000004294967295"), Some(u32::MAX));
}

#[test]
fn parse_seed_rejects_what_is_no_seed() {
    assert_eq!(parse_seed(""), None);
    assert_eq!(parse_seed("+"), None);
    assert_eq!(parse_seed("-1"), None);
    assert_eq!(parse_seed("12a"), None);
    assert_eq!(parse_seed("a12"), None);
    assert_eq!(parse_seed(" 12"), None);
    assert_eq!(parse_seed("12\n"), None);
    assert_eq!(parse_seed("1_000"), None);
    assert_eq!(parse_seed("++1"), None);
    assert_eq!(parse_seed("1+"), None);
    assert_eq!(parse_seed("12.0"), None);
    assert_eq!(parse_seed("\u{663}"), None);
    assert_eq!(parse_seed("1\u{e9}"), None);
}

#[test]
fn parse_seed_rejects_a_number_too_large_for_a_seed() {
    assert_eq!(parse_seed("4294967295"), Some(u32::MAX));
    assert_eq!(parse_seed("4294967296"), None);
    assert_eq!(parse_seed("99999999999999999999999999999999"), None);
    assert_eq!(parse_seed("42949672950"), None);
}

#[test]
fn parse_seed_agrees_with_the_standard_parser() {
    for text in vec![
        "0", "7", "+7", "-7", "007", "", "+", "x", "4294967295", "4294967296", "12 ", "1e3",
        "0x10", "+-1", "123456789", "1234567890123",
    ] {
        assert_eq!(parse_seed(text), text.parse::<u32>().ok());
    }
}
