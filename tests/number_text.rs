use matrix_sketch::number_text::tidy_number;
use matrix_sketch::rows::row_position;

#[test]
fn tidy_drops_trailing_zeros() {
    assert_eq!(tidy_number("1.500"), "1.5");
    assert_eq!(tidy_number("42.100"), "42.1");
    assert_eq!(tidy_number("-0.500"), "-0.5");
    assert_eq!(tidy_number("3.142"), "3.142");
}

#[test]
fn tidy_drops_the_dot_of_whole_numbers() {
    assert_eq!(tidy_number("2.000"), "2");
    assert_eq!(tidy_number("-7.000"), "-7");
    assert_eq!(tidy_number("0.000"), "0");
}

#[test]
fn tidy_turns_negative_zero_into_zero() {
    assert_eq!(tidy_number("-0.000"), "0");
    assert_eq!(tidy_number("-0.0"), "0");
    assert_eq!(tidy_number("-0"), "0");
}

#[test]
fn tidy_keeps_the_zeros_of_whole_numbers() {
    assert_eq!(tidy_number("100"), "100");
    assert_eq!(tidy_number("20"), "20");
    assert_eq!(tidy_number("0"), "0");
    assert_eq!(tidy_number("-30"), "-30");
    assert_eq!(tidy_number(""), "");
}

#[test]
fn tidy_trims_only_after_the_decimal_point() {
    assert_eq!(tidy_number("100.0"), "100");
    assert_eq!(tidy_number("10.500"), "10.5");
}

#[test]
fn row_position_counts_from_one() {
    assert_eq!(row_position(1, 3), Some(0));
    assert_eq!(row_position(3, 3), Some(2));
    assert_eq!(row_position(0, 3), None);
    assert_eq!(row_position(4, 3), None);
    assert_eq!(row_position(1, 0), None);
}
