use pon_provision::dump::{read_line, Line};
use pon_provision::text::{
    chars_of, contains_char, count_leading_digits, count_leading_spaces, count_trailing_digits,
    digit_of, find_first, find_last, find_word_start, push_decimal, read_number_up_to, read_numeral,
    stands_at,
    text_of, trim_bounds,
};

#[test]
fn decimal_numerals_are_written_without_leading_zeros() {
    for (n, text) in [(0u16, "0"), (7, "7"), (10, "10"), (129, "129"), (4094, "4094"), (65535, "65535")] {
        let mut out = String::from("n=");
        push_decimal(&mut out, n);
        assert_eq!(out, format!("n={text}"));
    }
}

#[test]
fn numerals_are_read_strictly() {
    let text = chars_of("x0 007 65535 123456 12a");
    assert_eq!(read_numeral(&text, 1, 2), Some(0));
    assert_eq!(read_numeral(&text, 3, 6), None);
    assert_eq!(read_numeral(&text, 5, 6), Some(7));
    assert_eq!(read_numeral(&text, 7, 12), Some(65535));
    assert_eq!(read_numeral(&text, 13, 19), None);
    assert_eq!(read_numeral(&text, 13, 18), Some(12345));
    assert_eq!(read_numeral(&text, 20, 23), None);
    assert_eq!(read_numeral(&text, 2, 2), None);
    assert_eq!(digit_of('7'), Some(7));
    assert_eq!(digit_of('x'), None);
}

#[test]
fn characters_and_pieces_of_a_text() {
    let source = "aé¢b";
    let text = chars_of(source);
    assert_eq!(text, vec!['a', 'é', '¢', 'b']);
    assert_eq!(text_of(&text, 1, 3, source), "é¢");
    assert_eq!(text_of(&text, 4, 4, source), "");
    assert!(contains_char(&text, '¢'));
    assert!(!contains_char(&text, '$'));
}

#[test]
fn searching_a_text() {
    let text = chars_of("ab sn cd sn ef");
    let pat = chars_of(" sn ");
    assert!(stands_at(&text, 2, &pat));
    assert!(!stands_at(&text, 3, &pat));
    assert!(!stands_at(&text, 12, &pat));
    assert_eq!(find_last(&text, &pat, 0, 13), Some(8));
    assert_eq!(find_last(&text, &pat, 0, 7), Some(2));
    assert_eq!(find_last(&text, &pat, 3, 7), None);
    assert_eq!(find_last(&text, &pat, 5, 4), None);
    assert_eq!(find_first(&text, &pat, 0, 13), Some(2));
    assert_eq!(find_first(&text, &pat, 3, 13), Some(8));
    assert_eq!(find_first(&text, &pat, 9, 13), None);
}

#[test]
fn counting_at_the_ends_of_a_text() {
    let text = chars_of("  12ab 345");
    assert_eq!(count_leading_spaces(&text), 2);
    assert_eq!(count_leading_digits(&text, 2), 2);
    assert_eq!(count_leading_digits(&text, 4), 0);
    assert_eq!(count_trailing_digits(&text, 10), 3);
    assert_eq!(count_trailing_digits(&text, 4), 2);
    assert_eq!(count_trailing_digits(&text, 6), 0);
    assert_eq!(find_word_start(&text, 6), 2);
    assert_eq!(find_word_start(&text, 10), 7);
    assert_eq!(find_word_start(&text, 7), 7);
    assert_eq!(trim_bounds(&text), (2, 10));
    assert_eq!(trim_bounds(&chars_of(" \t a b\r\n")), (3, 6));
    assert_eq!(trim_bounds(&chars_of(" \t ")), (3, 3));
    assert_eq!(trim_bounds(&chars_of("")), (0, 0));
}

#[test]
fn lines_of_a_dump_are_told_apart() {
    assert!(matches!(read_line(""), Line::Skip));
    assert!(matches!(read_line("   "), Line::Skip));
    assert!(matches!(read_line("$"), Line::Skip));
    assert!(matches!(read_line("  cost $5"), Line::Skip));
    assert!(matches!(read_line("!</xpon>"), Line::Close));
    assert!(matches!(read_line("x !</> y"), Line::Close));
    match read_line("!<xpon>") {
        Line::Open(name) => assert_eq!(name, "xpon"),
        _ => panic!("no marker"),
    }
    match read_line("a !<b> c> d") {
        Line::Open(name) => assert_eq!(name, "b> c"),
        _ => panic!("no marker"),
    }
    match read_line("!<>") {
        Line::Open(name) => assert_eq!(name, ""),
        _ => panic!("no marker"),
    }
    match read_line("    onu 1 type F601 sn X  ") {
        Line::Entry(depth, text) => assert_eq!((depth, text.as_str()), (2, "onu 1 type F601 sn X")),
        _ => panic!("no command"),
    }
    match read_line("!< not closed") {
        Line::Entry(depth, text) => assert_eq!((depth, text.as_str()), (0, "!< not closed")),
        _ => panic!("no command"),
    }
    match read_line("> before !<") {
        Line::Entry(depth, text) => assert_eq!((depth, text.as_str()), (0, "> before !<")),
        _ => panic!("no command"),
    }
}

#[test]
fn numbers_written_in_full_are_read_up_to_a_limit() {
    let text = chars_of("+0042 65535 65536 + 4x 99999999999");
    assert_eq!(read_number_up_to(&text, 0, 5, 65535), Some(42));
    assert_eq!(read_number_up_to(&text, 1, 5, 41), None);
    assert_eq!(read_number_up_to(&text, 1, 5, 42), Some(42));
    assert_eq!(read_number_up_to(&text, 6, 11, 65535), Some(65535));
    assert_eq!(read_number_up_to(&text, 12, 17, 65535), None);
    assert_eq!(read_number_up_to(&text, 18, 19, 65535), None);
    assert_eq!(read_number_up_to(&text, 19, 19, 65535), None);
    assert_eq!(read_number_up_to(&text, 20, 22, 65535), None);
    assert_eq!(read_number_up_to(&text, 23, 34, 65535), None);
    assert_eq!(read_number_up_to(&text, 0, 1, 65535), None);
}
