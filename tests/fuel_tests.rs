use rocket_fuel::fuel::{fuel_fuel, fuel_req};
use rocket_fuel::parse::{parse, parse_into_ints, parse_mass, parse_split};
use rocket_fuel::solution::{get_solution, get_solution2, sum_fuel_direct, sum_fuel_recursive};

#[test]
fn test_12() {
    assert_eq!(fuel_req(12), 2);
}

#[test]
fn test_14() {
    assert_eq!(fuel_req(14), 2);
}

#[test]
fn test_1969() {
    assert_eq!(fuel_req(1969), 654);
}

#[test]
fn test_100756() {
    assert_eq!(fuel_req(100756), 33583);
}

#[test]
fn test_parsing() {
    let test_val = "12\n14\n1969\n100756".to_string();
    assert_eq!(get_solution(&test_val), 34241);
}

#[test]
fn test_parsing_extra_line() {
    let test_val = "12\n14\n1969\n100756\n".to_string();
    assert_eq!(get_solution(&test_val), 34241);
}

#[test]
fn test_fuel_fuel_14() {
    assert_eq!(fuel_fuel(14), 2);
}

#[test]
fn test_fuel_fuel_1969() {
    assert_eq!(fuel_fuel(1969), 966);
}

#[test]
fn test_fuel_fuel_100756() {
    assert_eq!(fuel_fuel(100756), 50346);
}

#[test]
fn direct_formula_rounds_toward_zero() {
    assert_eq!(fuel_req(0), -2);
    assert_eq!(fuel_req(8), 0);
    assert_eq!(fuel_req(-7), -4);
    assert_eq!(fuel_req(-2), -2);
    assert_eq!(fuel_req(i32::MIN), -715827884);
    assert_eq!(fuel_req(i32::MAX), 715827880);
}

#[test]
fn recursive_fuel_is_never_negative() {
    assert_eq!(fuel_fuel(0), 0);
    assert_eq!(fuel_fuel(5), 0);
    assert_eq!(fuel_fuel(8), 0);
    assert_eq!(fuel_fuel(9), 1);
    assert_eq!(fuel_fuel(-100), 0);
    assert_eq!(fuel_fuel(i32::MIN), 0);
    assert!(fuel_fuel(i32::MAX) > 0);
}

#[test]
fn recursive_solution_of_sample() {
    let test_val = "12\n14\n1969\n100756".to_string();
    assert_eq!(get_solution2(&test_val), 51316);
    let with_newline = "12\n14\n1969\n100756\n".to_string();
    assert_eq!(get_solution2(&with_newline), 51316);
}

#[test]
fn extra_whitespace_is_ignored() {
    let text = "  \t12 \n\n 14\r\n  ".to_string();
    assert_eq!(get_solution(&text), 4);
    assert_eq!(get_solution2(&text), 4);
}

#[test]
fn empty_text_sums_to_zero() {
    assert_eq!(get_solution(&String::new()), 0);
    assert_eq!(get_solution2(&" \n ".to_string()), 0);
}

#[test]
fn split_gives_maximal_runs() {
    let toks = parse_split("  ab c\t\td\u{a0}e\n");
    assert_eq!(toks, vec!["ab".to_string(), "c".to_string(), "d".to_string(), "e".to_string()]);
    assert!(parse_split("").is_empty());
    assert!(parse_split(" \n\t ").is_empty());
}

#[test]
fn single_token_values() {
    assert_eq!(parse_mass("0"), Some(0));
    assert_eq!(parse_mass("+5"), Some(5));
    assert_eq!(parse_mass("-17"), Some(-17));
    assert_eq!(parse_mass("007"), Some(7));
    assert_eq!(parse_mass("2147483647"), Some(i32::MAX));
    assert_eq!(parse_mass("-2147483648"), Some(i32::MIN));
}

#[test]
fn single_token_rejections() {
    assert_eq!(parse_mass(""), None);
    assert_eq!(parse_mass("-"), None);
    assert_eq!(parse_mass("+"), None);
    assert_eq!(parse_mass("2147483648"), None);
    assert_eq!(parse_mass("-2147483649"), None);
    assert_eq!(parse_mass("99999999999999999999"), None);
    assert_eq!(parse_mass("1x"), None);
    assert_eq!(parse_mass("--1"), None);
    assert_eq!(parse_mass("1-"), None);
    assert_eq!(parse_mass("\u{ff11}"), None);
}

#[test]
fn parse_keeps_order() {
    let masses = parse("12\n-3 +4\t1969".to_string()).unwrap();
    assert_eq!(masses, vec![12, -3, 4, 1969]);
}

#[test]
fn parse_error_names_first_bad_token() {
    let err = parse("12 x4 7 y".to_string()).unwrap_err();
    assert_eq!(err.index, 1);
    assert_eq!(err.token, "x4".to_string());
    let toks = vec!["1".to_string(), "2".to_string(), "3000000000".to_string()];
    let err2 = parse_into_ints(&toks).unwrap_err();
    assert_eq!(err2.index, 2);
    assert_eq!(err2.token, "3000000000".to_string());
}

#[test]
fn sums_report_overflow() {
    assert_eq!(sum_fuel_direct(&vec![12, 14, 1969, 100756]), Some(34241));
    assert_eq!(sum_fuel_recursive(&vec![12, 14, 1969, 100756]), Some(51316));
    assert_eq!(sum_fuel_direct(&vec![]), Some(0));
    assert_eq!(sum_fuel_direct(&vec![i32::MAX, i32::MAX, i32::MAX, i32::MAX]), None);
    assert_eq!(sum_fuel_recursive(&vec![i32::MAX, i32::MAX, i32::MAX]), None);
    assert_eq!(sum_fuel_direct(&vec![i32::MAX, i32::MAX, i32::MAX]), Some(2147483640));
    assert_eq!(sum_fuel_direct(&vec![i32::MIN, i32::MIN]), Some(-1431655768));
    assert_eq!(sum_fuel_direct(&vec![i32::MIN, i32::MIN, i32::MIN]), None);
}
