use book_renderer::error::{FloatingPointFiniteError, MatrixParseError, NotInvertibleError};

#[test]
fn not_invertible_message() {
    assert_eq!(NotInvertibleError {}.message(), "Matrix is not invertible");
}

#[test]
fn not_finite_message() {
    assert_eq!(FloatingPointFiniteError {}.message(), "Floating point number is NaN or Inf");
}

#[test]
fn parse_error_names_the_token() {
    let e = MatrixParseError::new("1.2.3".to_string(), "invalid float literal".to_string());
    assert_eq!(e.token, "1.2.3");
    assert_eq!(
        e.message(),
        "Unable to parse matrix. Failed at token 1.2.3 with error invalid float literal"
    );
}
