use tetris_core::score::{format_score_content, nums_to_string, parse_score_content, string_to_nums};

#[test]
fn numbers_render_space_separated() {
    assert_eq!(nums_to_string(&vec![]), "");
    assert_eq!(nums_to_string(&vec![0]), "0");
    assert_eq!(nums_to_string(&vec![42]), "42");
    assert_eq!(nums_to_string(&vec![1, 20, 300]), "1 20 300");
    assert_eq!(nums_to_string(&vec![4294967295]), "4294967295");
}

#[test]
fn numbers_parse_like_the_standard_parser() {
    assert_eq!(string_to_nums("1 20 300"), vec![1, 20, 300]);
    // a plus sign is accepted, other junk is dropped
    assert_eq!(string_to_nums("+7 -3 x 9"), vec![7, 9]);
    // empty tokens from doubled spaces are dropped
    assert_eq!(string_to_nums("1  2"), vec![1, 2]);
    assert_eq!(string_to_nums(""), Vec::<u32>::new());
    // the largest value fits, one past it overflows and is dropped
    assert_eq!(string_to_nums("4294967295"), vec![4294967295]);
    assert_eq!(string_to_nums("4294967296"), Vec::<u32>::new());
    // leading zeros are plain digits
    assert_eq!(string_to_nums("007"), vec![7]);
    assert_eq!(string_to_nums("+"), Vec::<u32>::new());
}

#[test]
fn rendered_numbers_parse_back() {
    let nums: Vec<u32> = vec![0, 1, 99, 1000, 4294967295];
    let line = nums_to_string(&nums);
    assert_eq!(string_to_nums(line.as_str()), nums);
}

#[test]
fn score_file_round_trip() {
    let highscores: Vec<u32> = vec![1200, 300, 40];
    let max_lines: Vec<u32> = vec![30, 7, 1];
    let content = format_score_content(&highscores, &max_lines);
    assert_eq!(content, "1200 300 40\n30 7 1\n");
    let parsed = parse_score_content(content.as_str());
    assert_eq!(parsed, Some((highscores, max_lines)));
}

#[test]
fn malformed_score_file_is_no_saved_data() {
    // fewer than two lines
    assert_eq!(parse_score_content(""), None);
    assert_eq!(parse_score_content("10 20"), None);
    // a line without a single parseable number
    assert_eq!(parse_score_content("10 20\nx y\n"), None);
    assert_eq!(parse_score_content("\n30\n"), None);
    // two good lines need no trailing line break
    assert_eq!(parse_score_content("10 20\n30"), Some((vec![10, 20], vec![30])));
    // only the first two lines count
    assert_eq!(parse_score_content("1\n2\n3\n"), Some((vec![1], vec![2])));
}
