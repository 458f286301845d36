use teleport_helper::number::{
    decimal_string, parse_selection, parse_usize, signed_decimal_chars, Selection,
};
use teleport_helper::prompt::{
    begins_with_y, is_blank, parse_answer, parse_option, Answer, Option2,
};
use teleport_helper::text::{string_of, to_lower};

fn direct_answer(input: &str) -> Answer {
    match input.trim().to_lowercase().as_str() {
        "y" | "yes" => Answer::Yes,
        "n" | "no" => Answer::No,
        _ => Answer::Invalid,
    }
}

#[test]
fn answers_are_read_without_regard_to_case_and_space() {
    let inputs = [
        "y", "Y", "yes", "YES", "yEs", " yes \n", "n", "N", "no", "NO", "nO\r\n", "", "  ", "yess",
        "ye", "ja", "ＹＥＳ", "y es", "\u{212a}", "Ýes", "ñ",
    ];
    for input in inputs {
        assert_eq!(parse_answer(input), direct_answer(input), "{:?}", input);
    }
    assert_eq!(parse_answer("Yes\n"), Answer::Yes);
    assert_eq!(parse_answer(" no"), Answer::No);
    assert_eq!(parse_answer("maybe"), Answer::Invalid);
}

#[test]
fn only_ascii_capitals_lower_to_the_letters_of_an_answer() {
    let mut code: u32 = 0;
    while code <= 0x10FFFF {
        if let Some(c) = char::from_u32(code) {
            let lowered: String = c.to_lowercase().collect();
            if lowered.chars().any(|l| "yesno".contains(l)) {
                assert_eq!(lowered, to_lower(c).to_string(), "U+{:04X}", code);
            }
            if c.is_ascii() {
                assert_eq!(to_lower(c), c.to_ascii_lowercase());
            } else {
                assert_eq!(to_lower(c), c);
            }
        }
        code += 1;
    }
}

#[test]
fn admin_is_wanted_by_anything_that_opens_with_y() {
    for input in ["y", "Yes please", " yolo", "n", "", "  ", "oy"] {
        assert_eq!(
            begins_with_y(input),
            input.trim().to_lowercase().starts_with('y'),
            "{:?}",
            input
        );
    }
}

#[test]
fn ways_are_one_and_two() {
    assert_eq!(parse_option("1"), Option2::First);
    assert_eq!(parse_option(" 2\n"), Option2::Second);
    assert_eq!(parse_option("3"), Option2::Neither);
    assert_eq!(parse_option("01"), Option2::Neither);
    assert_eq!(parse_option(""), Option2::Neither);
    assert!(is_blank(" \t\n"));
    assert!(is_blank(""));
    assert!(!is_blank(" x "));
}

#[test]
fn numbers_are_read_as_std_reads_them() {
    let inputs = [
        "0", "7", "42", "+5", "+", "", "-1", "-0", "1a", " 1", "1 ", "007", "18446744073709551615",
        "18446744073709551616", "99999999999999999999999", "٣", "１", "+-1", "++1", "1_000",
    ];
    for input in inputs {
        assert_eq!(parse_usize(input), input.parse::<usize>().ok(), "{:?}", input);
    }
}

#[test]
fn selection_is_a_number_from_one_to_the_count() {
    assert_eq!(parse_selection("1", 3), Selection::Index(0));
    assert_eq!(parse_selection(" 3\n", 3), Selection::Index(2));
    assert_eq!(parse_selection("0", 3), Selection::OutOfRange);
    assert_eq!(parse_selection("4", 3), Selection::OutOfRange);
    assert_eq!(parse_selection("1", 0), Selection::OutOfRange);
    assert_eq!(parse_selection("", 3), Selection::Empty);
    assert_eq!(parse_selection("  \n", 3), Selection::Empty);
    assert_eq!(parse_selection("two", 3), Selection::NotANumber);
    assert_eq!(parse_selection("-1", 3), Selection::NotANumber);
    assert_eq!(parse_selection("+2", 3), Selection::Index(1));
}

#[test]
fn numbers_are_written_as_std_writes_them() {
    for n in [0u64, 1, 9, 10, 11, 99, 100, 40000, 59999, 65535, u64::MAX] {
        assert_eq!(decimal_string(n), n.to_string());
    }
    for n in [0i32, 1, -1, 127, -128, i32::MAX, i32::MIN] {
        assert_eq!(string_of(&signed_decimal_chars(n)), n.to_string());
    }
}
