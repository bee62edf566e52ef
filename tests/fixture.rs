use book_renderer::fixture::{matrix_tokens, parse_tokens, row_tokens, split_at_char, TOKEN_SEPARATOR};

#[test]
fn splits_at_every_separator() {
    assert_eq!(split_at_char("1,2,,3", ','), vec!["1", "2", "", "3"]);
    assert_eq!(split_at_char("", ','), vec![""]);
    assert_eq!(split_at_char("a\n", '\n'), vec!["a", ""]);
}

#[test]
fn row_tokens_drop_separators() {
    assert_eq!(row_tokens("| 0 | 1 | -1.5 |"), vec!["0", "1", "-1.5"]);
    assert_eq!(row_tokens("-3, 5, 0"), vec!["-3", "5", "0"]);
    assert_eq!(row_tokens("||"), Vec::<String>::new());
}

#[test]
fn matrix_tokens_skip_blank_lines() {
    let g = matrix_tokens("\n   \n 1 | 2\n\n3,4\n  ");
    assert_eq!(g, vec![vec!["1", "2"], vec!["3", "4"]]);
}

#[test]
fn a_line_of_separators_is_an_empty_row() {
    let g = matrix_tokens("1 2\n | \n3");
    assert_eq!(g, vec![vec!["1".to_string(), "2".to_string()], vec![], vec!["3".to_string()]]);
}

#[test]
fn letters_end_up_in_no_token() {
    assert_eq!(matrix_tokens("1 x 2"), vec![vec!["1", "2"]]);
    assert_eq!(TOKEN_SEPARATOR, r"[^\d.\-]+");
}

fn number(t: String) -> Result<f64, String> {
    t.parse::<f64>().map_err(|e| e.to_string())
}

#[test]
fn parse_tokens_reads_every_cell() {
    let cells = parse_tokens(&matrix_tokens("1 | 2.5\n-3"), number).unwrap();
    assert_eq!(cells, vec![vec![1.0, 2.5], vec![-3.0]]);
}

#[test]
fn parse_tokens_names_the_first_bad_token() {
    let e = parse_tokens(&matrix_tokens("1 | 2\n3 | 1.2.3 | -\n--"), number).unwrap_err();
    assert_eq!(e.token, "1.2.3");
    assert_eq!(e.reason, "invalid float literal");
    assert_eq!(
        e.message(),
        "Unable to parse matrix. Failed at token 1.2.3 with error invalid float literal"
    );
}

#[test]
fn a_lone_minus_is_not_a_number() {
    let e = parse_tokens(&matrix_tokens("4 -"), number).unwrap_err();
    assert_eq!(e.token, "-");
}
