use mckp_ga::parser::{parse_input, ParseError};

fn lines(ls: &[&str]) -> Vec<String> {
    ls.iter().map(|s| s.to_string()).collect()
}

#[test]
fn test_parse_two_group_instance() {
    let input = lines(&["2", "50", "10 20 30", "15 25 40", "", "5 10 14", "7 12 15"]);
    let problem = parse_input(&input).expect("well-formed input");
    assert_eq!(problem.size, 2);
    assert_eq!(problem.capacity, 50);
    assert_eq!(problem.data.len(), 2);
    assert_eq!(problem.data[0][0].gain, 10);
    assert_eq!(problem.data[0][0].cost, 5);
    assert_eq!(problem.data[0][2].gain, 30);
    assert_eq!(problem.data[0][2].cost, 14);
    assert_eq!(problem.data[1][1].gain, 25);
    assert_eq!(problem.data[1][1].cost, 12);
    assert_eq!(problem.data[1][2].gain, 40);
    assert_eq!(problem.data[1][2].cost, 15);
}

#[test]
fn test_parse_accepts_trailing_blank_line() {
    let input = lines(&["1", "9", "1 2 3", "", "4 5 6", ""]);
    let problem = parse_input(&input).expect("well-formed input");
    assert_eq!(problem.size, 1);
    assert_eq!(problem.capacity, 9);
    assert_eq!(problem.data[0][1].gain, 2);
    assert_eq!(problem.data[0][1].cost, 5);
}

#[test]
fn test_parse_accepts_extra_blanks_between_numbers() {
    let input = lines(&["1", "9", "  1\t2   3 ", "", "4 5 6"]);
    let problem = parse_input(&input).expect("well-formed input");
    assert_eq!(problem.data[0][0].gain, 1);
    assert_eq!(problem.data[0][2].gain, 3);
}

#[test]
fn test_parse_rejects_missing_header() {
    assert_eq!(parse_input(&lines(&[])).unwrap_err(), ParseError::MissingHeader);
    assert_eq!(parse_input(&lines(&["3"])).unwrap_err(), ParseError::MissingHeader);
}

#[test]
fn test_parse_rejects_bad_numbers() {
    let bad_size = lines(&["x", "50", "1 2 3", "", "4 5 6"]);
    assert_eq!(parse_input(&bad_size).unwrap_err(), ParseError::InvalidNumber);
    let bad_capacity = lines(&["1", "-5", "1 2 3", "", "4 5 6"]);
    assert_eq!(parse_input(&bad_capacity).unwrap_err(), ParseError::InvalidNumber);
    let huge_item = lines(&["1", "9", "1 2 99999999999999999999", "", "4 5 6"]);
    assert_eq!(parse_input(&huge_item).unwrap_err(), ParseError::InvalidNumber);
}

#[test]
fn test_parse_rejects_wrong_line_count() {
    let missing_cost_line = lines(&["2", "50", "1 2 3", "4 5 6", "", "7 8 9"]);
    assert_eq!(parse_input(&missing_cost_line).unwrap_err(), ParseError::WrongGroupCount);
    let missing_separator = lines(&["1", "50", "1 2 3", "4 5 6"]);
    assert_eq!(parse_input(&missing_separator).unwrap_err(), ParseError::WrongGroupCount);
}

#[test]
fn test_parse_rejects_wrong_item_count() {
    let two_items = lines(&["1", "9", "1 2", "", "4 5 6"]);
    assert_eq!(parse_input(&two_items).unwrap_err(), ParseError::WrongItemCount);
    let four_items = lines(&["1", "9", "1 2 3 4", "", "4 5 6"]);
    assert_eq!(parse_input(&four_items).unwrap_err(), ParseError::WrongItemCount);
}
