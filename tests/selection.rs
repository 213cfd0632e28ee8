use un7z::selection::{parse_selection, resolve_selection, SelectionError};

#[test]
fn selection_numbers_and_ranges() {
    assert_eq!(parse_selection("1,3,5-7", 10), Ok(vec![0, 2, 4, 5, 6]));
}

#[test]
fn selection_drops_out_of_range_numbers() {
    assert_eq!(parse_selection("20", 10), Ok(vec![]));
    assert_eq!(parse_selection("0,10,11", 10), Ok(vec![9]));
    assert_eq!(parse_selection("8-15", 10), Ok(vec![7, 8, 9]));
    assert_eq!(parse_selection("0-2", 10), Ok(vec![0, 1]));
}

#[test]
fn selection_all_or_empty_gives_every_index() {
    assert_eq!(resolve_selection("all", 4), Ok(vec![0, 1, 2, 3]));
    assert_eq!(resolve_selection("", 3), Ok(vec![0, 1, 2]));
    assert_eq!(resolve_selection("  AlL \n", 2), Ok(vec![0, 1]));
    assert_eq!(resolve_selection("   ", 2), Ok(vec![0, 1]));
    assert_eq!(resolve_selection("all", 0), Ok(vec![]));
}

#[test]
fn resolve_reads_other_answers_as_selection() {
    assert_eq!(resolve_selection(" 1,3,5-7\n", 10), Ok(vec![0, 2, 4, 5, 6]));
    assert_eq!(resolve_selection("alls", 10), Err(SelectionError::InvalidNumber));
}

#[test]
fn selection_dedups_and_sorts() {
    assert_eq!(parse_selection("3,1,3,2-3", 5), Ok(vec![0, 1, 2]));
}

#[test]
fn selection_trims_entries() {
    assert_eq!(parse_selection(" 2 ,\t4 ", 5), Ok(vec![1, 3]));
    assert_eq!(parse_selection("+3", 5), Ok(vec![2]));
}

#[test]
fn selection_errors() {
    assert_eq!(parse_selection("x", 5), Err(SelectionError::InvalidNumber));
    assert_eq!(parse_selection("1,,2", 5), Err(SelectionError::InvalidNumber));
    assert_eq!(parse_selection("a-3", 5), Err(SelectionError::InvalidRangeStart));
    assert_eq!(parse_selection("1-b", 5), Err(SelectionError::InvalidRangeEnd));
    assert_eq!(parse_selection("2 - 3", 5), Err(SelectionError::InvalidRangeStart));
    assert_eq!(parse_selection("-3", 5), Err(SelectionError::InvalidRangeStart));
    assert_eq!(parse_selection("+", 5), Err(SelectionError::InvalidNumber));
    assert_eq!(parse_selection("", 5), Err(SelectionError::InvalidNumber));
}

#[test]
fn selection_first_error_wins() {
    assert_eq!(parse_selection("1-b,x", 5), Err(SelectionError::InvalidRangeEnd));
    assert_eq!(parse_selection("x,1-b", 5), Err(SelectionError::InvalidNumber));
}

#[test]
fn selection_ignores_malformed_ranges() {
    assert_eq!(parse_selection("1-2-3,4", 5), Ok(vec![3]));
    assert_eq!(parse_selection("4-2", 5), Ok(vec![]));
}

#[test]
fn selection_number_limits() {
    assert_eq!(parse_selection("18446744073709551615", 3), Ok(vec![]));
    assert_eq!(parse_selection("18446744073709551616", 3), Err(SelectionError::InvalidNumber));
    assert_eq!(parse_selection("2-18446744073709551615", 3), Ok(vec![1, 2]));
    assert_eq!(
        parse_selection("1-99999999999999999999", 3),
        Err(SelectionError::InvalidRangeEnd)
    );
}
