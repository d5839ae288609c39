use swaytools::text::{decimal_string, parse_i32, IntError};
use swaytools::token::map_validator;

#[test]
fn range_token_lists_each_number() {
    let (output, nums) = map_validator("VGA-1:1-3".to_string()).unwrap();
    assert_eq!(output, "VGA-1");
    assert_eq!(nums, vec![1, 2, 3]);
}

#[test]
fn list_token_is_sorted_and_deduplicated() {
    let (output, nums) = map_validator("VGA-1:5,2,2".to_string()).unwrap();
    assert_eq!(output, "VGA-1");
    assert_eq!(nums, vec![2, 5]);
}

#[test]
fn reversed_range_is_ascending() {
    let (_, nums) = map_validator("VGA-1:3-1".to_string()).unwrap();
    assert_eq!(nums, vec![1, 2, 3]);
}

#[test]
fn mixed_pieces_are_merged() {
    let (output, nums) = map_validator("HDMI-A-3:7,1-2,2".to_string()).unwrap();
    assert_eq!(output, "HDMI-A-3");
    assert_eq!(nums, vec![1, 2, 7]);
}

#[test]
fn output_is_split_at_first_colon() {
    let (output, nums) = map_validator("Dell X2353 0x2342:22".to_string()).unwrap();
    assert_eq!(output, "Dell X2353 0x2342");
    assert_eq!(nums, vec![22]);
}

#[test]
fn missing_colon_is_rejected() {
    let err = map_validator("VGA-1".to_string()).unwrap_err();
    assert_eq!(err, "must contain colon as separator");
}

#[test]
fn bad_number_is_reported_with_piece() {
    let err = map_validator("VGA-1:1,x".to_string()).unwrap_err();
    assert_eq!(err, "'x' - invalid digit found in string");
}

#[test]
fn empty_piece_is_reported() {
    let err = map_validator("VGA-1:1,".to_string()).unwrap_err();
    assert_eq!(err, "'' - cannot parse integer from empty string");
}

#[test]
fn bad_range_end_is_reported() {
    let err = map_validator("VGA-1:1-y".to_string()).unwrap_err();
    assert_eq!(err, "'y' - invalid digit found in string");
}

#[test]
fn decimal_parser_follows_std() {
    let cases = ["0", "42", "+7", "-13", "007", "2147483647", "-2147483648"];
    for c in cases {
        let chars: Vec<char> = c.chars().collect();
        assert_eq!(parse_i32(&chars), Ok(c.parse::<i32>().unwrap()));
    }
    let text = |s: &str| -> Vec<char> { s.chars().collect() };
    assert_eq!(parse_i32(&text("")), Err(IntError::Empty));
    assert_eq!(parse_i32(&text("-")), Err(IntError::InvalidDigit));
    assert_eq!(parse_i32(&text("1a")), Err(IntError::InvalidDigit));
    assert_eq!(parse_i32(&text("2147483648")), Err(IntError::PosOverflow));
    assert_eq!(parse_i32(&text("-2147483649")), Err(IntError::NegOverflow));
}

#[test]
fn decimal_text_of_extremes() {
    assert_eq!(decimal_string(0), "0");
    assert_eq!(decimal_string(-45), "-45");
    assert_eq!(decimal_string(i32::MIN), "-2147483648");
    assert_eq!(decimal_string(i32::MAX), "2147483647");
}

#[test]
fn negative_number_fails_on_left_of_dash() {
    let err = map_validator("VGA-1:-3".to_string()).unwrap_err();
    assert_eq!(err, "'' - cannot parse integer from empty string");
}

#[test]
fn range_order_gives_same_token() {
    assert_eq!(map_validator("DP-2:12-9".to_string()), map_validator("DP-2:9-12".to_string()));
    assert_eq!(map_validator("DP-2:9-12".to_string()).unwrap().1, vec![9, 10, 11, 12]);
}
