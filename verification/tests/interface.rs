use delve::interface::{
    commas_signed, commas_unsigned, menu_step, position, read_choice, Comma, MenuKey, MenuStep,
};

#[test]
fn commas_group_digits_by_three() {
    assert_eq!(6000u32.commas(), "6,000");
    assert_eq!(0u8.commas(), "0");
    assert_eq!(255u8.commas(), "255");
    assert_eq!(999u16.commas(), "999");
    assert_eq!(1000u16.commas(), "1,000");
    assert_eq!(65_535u16.commas(), "65,535");
    assert_eq!(1_234_567u32.commas(), "1,234,567");
    assert_eq!(1_000_000u64.commas(), "1,000,000");
    assert_eq!(100_200u64.commas(), "100,200");
    assert_eq!(u64::MAX.commas(), "18,446,744,073,709,551,615");
    assert_eq!(commas_unsigned(12_345), "12,345");
}

#[test]
fn commas_count_the_minus_sign_as_a_character() {
    assert_eq!(5i8.commas(), "5");
    assert_eq!((-5i8).commas(), "-5");
    assert_eq!((-12i16).commas(), "-12");
    assert_eq!((-100i32).commas(), "-,100");
    assert_eq!((-1000i32).commas(), "-1,000");
    assert_eq!((-123_456i64).commas(), "-,123,456");
    assert_eq!(1_234i64.commas(), "1,234");
    assert_eq!(i64::MIN.commas(), "-9,223,372,036,854,775,808");
    assert_eq!(i64::MAX.commas(), "9,223,372,036,854,775,807");
    assert_eq!(commas_signed(-1_234_567), "-1,234,567");
}

#[test]
fn menu_keys_move_the_mark() {
    assert_eq!(menu_step(1, 3, MenuKey::Enter), MenuStep::Chosen(1));
    assert_eq!(menu_step(1, 3, MenuKey::Char('e')), MenuStep::Chosen(1));
    assert_eq!(menu_step(1, 3, MenuKey::ArrowUp), MenuStep::Moved(0));
    assert_eq!(menu_step(0, 3, MenuKey::ArrowUp), MenuStep::Moved(0));
    assert_eq!(menu_step(2, 3, MenuKey::Char('w')), MenuStep::Moved(1));
    assert_eq!(menu_step(2, 3, MenuKey::ArrowDown), MenuStep::Moved(3));
    assert_eq!(menu_step(3, 3, MenuKey::ArrowDown), MenuStep::Moved(3));
    assert_eq!(menu_step(0, 3, MenuKey::Char('s')), MenuStep::Moved(1));
    assert_eq!(menu_step(2, 3, MenuKey::Home), MenuStep::Moved(0));
    assert_eq!(menu_step(1, 3, MenuKey::End), MenuStep::Moved(3));
    assert_eq!(menu_step(1, 3, MenuKey::Char('x')), MenuStep::Moved(1));
    assert_eq!(menu_step(1, 3, MenuKey::Other), MenuStep::Moved(1));
    assert_eq!(menu_step(usize::MAX, usize::MAX, MenuKey::ArrowDown), MenuStep::Moved(usize::MAX));
    assert_eq!(menu_step(0, 0, MenuKey::ArrowDown), MenuStep::Moved(0));
}

#[test]
fn position_finds_the_first_equal_choice() {
    let choices = vec!["retry".to_string(), "quit".to_string(), "retry".to_string()];
    assert_eq!(position(&choices, "retry"), Some(0));
    assert_eq!(position(&choices, "quit"), Some(1));
    assert_eq!(position(&choices, "Quit"), None);
    assert_eq!(position(&choices, ""), None);
    assert_eq!(position(&Vec::new(), "quit"), None);
}

#[test]
fn typed_choices_are_trimmed_and_lowered() {
    let choices = vec!["retry".to_string(), "quit".to_string()];
    assert_eq!(read_choice(&choices, "quit"), Some(1));
    assert_eq!(read_choice(&choices, "  QuIt \n"), Some(1));
    assert_eq!(read_choice(&choices, "\tRETRY"), Some(0));
    assert_eq!(read_choice(&choices, "qu it"), None);
    assert_eq!(read_choice(&choices, ""), None);
    let shouted = vec!["QUIT".to_string()];
    assert_eq!(read_choice(&shouted, "QUIT"), None);
}
