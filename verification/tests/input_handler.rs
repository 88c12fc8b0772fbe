use gogoanime_scraper::input_handler::{parse_number, pick_by_number, trim};

#[test]
fn check_spaces() {
    let input1 = String::from("Hello, world!");
    let input2 = String::from("Hello,%20world!");

    assert_eq!(trim(input1), input2);
}

#[test]
fn check_no_spaces() {
    let input = String::from("test");
    assert_eq!(input, trim(input.clone()));
}

#[test]
fn trim_strips_unicode_white_space_and_encodes_inner_spaces() {
    assert_eq!(trim(String::from("  One Piece \n")), "One%20Piece");
    assert_eq!(trim(String::from("\t\u{3000}a  b\u{a0}")), "a%20%20b");
    assert_eq!(trim(String::from(" \n\t ")), "");
    assert_eq!(trim(String::from("")), "");
}

#[test]
fn trim_keeps_inner_non_space_white_space() {
    assert_eq!(trim(String::from("a\tb")), "a\tb");
}

#[test]
fn trim_is_idempotent_on_examples() {
    for s in ["  x y  ", "\u{2003}Naruto Shippuden\r\n", "a%20b", " "] {
        let once = trim(String::from(s));
        assert_eq!(trim(once.clone()), once);
    }
}

#[test]
fn parse_number_reads_trimmed_unsigned_numbers() {
    assert_eq!(parse_number("12\n"), Some(12));
    assert_eq!(parse_number("  +7 "), Some(7));
    assert_eq!(parse_number("007"), Some(7));
    assert_eq!(parse_number("0"), Some(0));
}

#[test]
fn parse_number_refuses_what_from_str_refuses() {
    assert_eq!(parse_number(""), None);
    assert_eq!(parse_number("+"), None);
    assert_eq!(parse_number("-1"), None);
    assert_eq!(parse_number("1 2"), None);
    assert_eq!(parse_number("abc"), None);
    assert_eq!(parse_number("99999999999999999999999999"), None);
}

#[test]
fn parse_number_agrees_with_std() {
    for s in ["42", " 42 ", "+0", "18446744073709551615", "18446744073709551616", "4x", "٣"] {
        assert_eq!(parse_number(s), s.trim().parse::<usize>().ok());
    }
}

#[test]
fn pick_by_number_counts_from_one() {
    let entries = vec![String::from("a"), String::from("b"), String::from("c")];
    assert_eq!(pick_by_number(&entries, 1), "a");
    assert_eq!(pick_by_number(&entries, 3), "c");
}

#[test]
fn white_space_model_agrees_with_std() {
    for code in 0u32..0x3100 {
        if let Some(c) = char::from_u32(code) {
            let text = format!("{c}x{c}");
            let expected = text.trim().replace(" ", "%20");
            assert_eq!(trim(text.clone()), expected, "for U+{code:04X}");
        }
    }
}

#[test]
fn a_list_label_number_reads_back() {
    for index in [0usize, 8, 9, 99, 12345] {
        let label = gogoanime_scraper::print_handleing::anime_list_label(index);
        let typed = format!("{}\n", &label[1..label.len() - 1]);
        assert_eq!(parse_number(&typed), Some(index + 1));
    }
}
