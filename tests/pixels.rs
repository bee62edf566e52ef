use book_renderer::pixels::{decimal_text, ppm_data, rgba_bytes, Rgb8};

fn black_rows(width: usize, height: usize) -> Vec<Vec<Rgb8>> {
    vec![vec![Rgb8 { red: 0, green: 0, blue: 0 }; width]; height]
}

#[test]
fn book_test_ppm_header() {
    let data = ppm_data(5, &black_rows(5, 3));
    assert_eq!(data[0], "P3");
    assert_eq!(data[1], "5 3");
    assert_eq!(data[2], "255");
}

#[test]
fn book_test_ppm_data() {
    // The colors (1.5, 0, 0), (0, 0.5, 0) and (-0.5, 0, 1), scaled to 255 and
    // clamped.
    let mut rows = black_rows(5, 3);
    rows[0][0] = Rgb8 { red: 255, green: 0, blue: 0 };
    rows[1][2] = Rgb8 { red: 0, green: 128, blue: 0 };
    rows[2][4] = Rgb8 { red: 0, green: 0, blue: 255 };
    let data = ppm_data(5, &rows);
    assert_eq!(data[3], "255 0 0 0 0 0 0 0 0 0 0 0 0 0 0");
    assert_eq!(data[4], "0 0 0 0 0 0 0 128 0 0 0 0 0 0 0");
    assert_eq!(data[5], "0 0 0 0 0 0 0 0 0 0 0 0 0 0 255");
}

#[test]
fn book_test_newline_ending() {
    let data = ppm_data(5, &black_rows(5, 3));
    assert_eq!(data.last().unwrap(), "\n");
    assert_eq!(data.len(), 7);
}

#[test]
fn ppm_of_an_empty_canvas() {
    assert_eq!(ppm_data(0, &vec![]), vec!["P3", "0 0", "255", "\n"]);
}

#[test]
fn decimal_of_numbers() {
    assert_eq!(decimal_text(0), "0");
    assert_eq!(decimal_text(7), "7");
    assert_eq!(decimal_text(10), "10");
    assert_eq!(decimal_text(255), "255");
    assert_eq!(decimal_text(1234567890), "1234567890");
}

#[test]
fn rgba_adds_an_opaque_alpha() {
    let px = vec![Rgb8 { red: 1, green: 2, blue: 3 }, Rgb8 { red: 250, green: 128, blue: 0 }];
    assert_eq!(rgba_bytes(&px), vec![1, 2, 3, 255, 250, 128, 0, 255]);
    assert!(rgba_bytes(&vec![]).is_empty());
}
