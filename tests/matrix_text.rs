use matrix_sketch::excalidraw::{Element, ExcalidrawFile};
use matrix_sketch::matrix_text::{sum, MatrixText};

fn strings(v: &[&str]) -> Vec<String> {
    v.iter().map(|s| s.to_string()).collect()
}

fn sample() -> MatrixText {
    MatrixText::new(
        vec![strings(&["1.000", "-0.000"]), strings(&["2.500", "10.000"])],
        strings(&["3.000", "-4.250"]),
    )
    .unwrap()
}

fn text_at(e: &Element) -> (i32, i32, String) {
    match e {
        Element::Text { x, y, text, .. } => (*x, *y, text.clone()),
        _ => panic!("not a text"),
    }
}

fn line_at(e: &Element) -> (i32, i32, i32, i32, Vec<[i32; 2]>) {
    match e {
        Element::Line { x, y, width, height, points, .. } => {
            (*x, *y, *width, *height, points.clone())
        },
        _ => panic!("not a line"),
    }
}

#[test]
fn sum_adds_all_values() {
    assert_eq!(sum(&[3, 2, 5]), 10);
    assert_eq!(sum(&[]), 0);
    assert_eq!(sum(&[7]), 7);
}

#[test]
fn new_refuses_a_matrix_that_is_not_square() {
    assert!(MatrixText::new(vec![strings(&["1", "2"])], strings(&["1", "2"])).is_none());
    assert!(MatrixText::new(
        vec![strings(&["1", "2"]), strings(&["3"])],
        strings(&["1", "2"])
    )
    .is_none());
    assert!(MatrixText::new(vec![strings(&["1"])], strings(&["1", "2"])).is_none());
    assert!(MatrixText::new(Vec::new(), Vec::new()).is_some());
}

#[test]
fn boxed_text_aligns_columns() {
    let m = sample();
    assert!(m.check_text_fits());
    let expected = format!(
        "\n\u{250c}\u{2574}{}\u{2576}\u{2510}\n\u{2502}   1  0\u{2502}    3 \u{2502}\n\u{2502} 2.5 10\u{2502}-4.25 \u{2502}\n\u{2514}\u{2574}{}\u{2576}\u{2518}",
        " ".repeat(12),
        " ".repeat(12)
    );
    assert_eq!(m.to_text(), expected);
}

#[test]
fn boxed_text_of_three_rows_has_edges_as_wide_as_rows() {
    let m = MatrixText::new(
        vec![
            strings(&["1.000", "0.000", "0.000"]),
            strings(&["0.000", "1.000", "0.000"]),
            strings(&["0.000", "0.000", "1.000"]),
        ],
        strings(&["5.000", "6.000", "7.000"]),
    )
    .unwrap();
    let text = m.to_text();
    let lines: Vec<&str> = text.split('\n').collect();
    assert_eq!(lines.len(), 6);
    assert_eq!(lines[0], "");
    assert_eq!(lines[1], format!("\u{250c}\u{2574}{}\u{2576}\u{2510}", " ".repeat(7)));
    assert_eq!(lines[2], "\u{2502} 1 0 0\u{2502}5 \u{2502}");
    for l in &lines[1..] {
        assert_eq!(l.chars().count(), 11);
    }
}

#[test]
fn boxed_text_without_decimals_keeps_whole_numbers() {
    let m = MatrixText::new(
        vec![strings(&["100", "20"]), strings(&["0", "1"])],
        strings(&["10", "-0"]),
    )
    .unwrap();
    let expected = format!(
        "\n\u{250c}\u{2574}{}\u{2576}\u{2510}\n\u{2502} 100 20\u{2502}10 \u{2502}\n\u{2502}   0  1\u{2502} 0 \u{2502}\n\u{2514}\u{2574}{}\u{2576}\u{2518}",
        " ".repeat(9),
        " ".repeat(9)
    );
    assert_eq!(m.to_text(), expected);
}

#[test]
fn boxed_text_of_empty_matrix() {
    let m = MatrixText::new(Vec::new(), Vec::new()).unwrap();
    assert_eq!(m.to_text(), "\n\u{250c}\u{2574}\u{2576}\u{2510}\n\u{2514}\u{2574}\u{2576}\u{2518}");
}

#[test]
fn drawing_places_brackets_entries_and_results() {
    let m = sample();
    let mut file = ExcalidrawFile::default();
    assert!(m.check_fits(20, 0, 0));
    let (w, h) = file.draw(&m, 0, 0, false);
    assert_eq!((w, h), (200, 100));
    let e = &file.elements;
    assert_eq!(e.len(), 2 * 2 + 2 + 3);
    assert_eq!(line_at(&e[0]), (0, 0, 20, 100, vec![[20, 0], [0, 0], [0, 100], [20, 100]]));
    assert_eq!(text_at(&e[1]), (20, 20, "1".to_string()));
    assert_eq!(text_at(&e[2]), (20, 60, "2.5".to_string()));
    assert_eq!(text_at(&e[3]), (70, 20, "0".to_string()));
    assert_eq!(text_at(&e[4]), (70, 60, "10".to_string()));
    assert_eq!(line_at(&e[5]), (110, 20, 0, 60, vec![[0, 0], [0, 60]]));
    assert_eq!(text_at(&e[6]), (130, 20, "3".to_string()));
    assert_eq!(text_at(&e[7]), (130, 60, "-4.25".to_string()));
    assert_eq!(line_at(&e[8]), (180, 0, 20, 100, vec![[0, 0], [20, 0], [20, 100], [0, 100]]));
    match &e[2] {
        Element::Text { width, height, .. } => assert_eq!((*width, *height), (31, 19)),
        _ => panic!("not a text"),
    }
}

#[test]
fn drawing_appends_after_existing_elements() {
    let m = sample();
    let mut file = ExcalidrawFile::default();
    let (w, h) = file.draw(&m, 0, 0, false);
    let (w2, h2) = file.draw(&m, w, h, true);
    assert_eq!((w2, h2), (200, 100));
    assert_eq!(file.elements.len(), 18);
    assert_eq!(text_at(&file.elements[10]), (220, 120, "1".to_string()));
    match &file.elements[10] {
        Element::Text { locked, .. } => assert!(*locked),
        _ => panic!("not a text"),
    }
    assert_eq!(file.app_state.grid_size, 20);
}

#[test]
fn drawing_uses_the_grid_size() {
    let m = MatrixText::new(vec![strings(&["1.000"])], strings(&["2.000"])).unwrap();
    let mut file = ExcalidrawFile::default();
    file.app_state.grid_size = 10;
    let (w, h) = file.draw(&m, 5, 5, false);
    assert_eq!((w, h), (40 + 10 + 10, 30));
    assert_eq!(text_at(&file.elements[1]), (15, 15, "1".to_string()));
    assert_eq!(line_at(&file.elements[2]).0, 5 + 20 + 10);
    assert_eq!(text_at(&file.elements[3]), (5 + 30 + 10, 15, "2".to_string()));
}

#[test]
fn check_fits_refuses_coordinates_out_of_range() {
    let m = sample();
    assert!(m.check_fits(20, 0, 0));
    assert!(!m.check_fits(20, i32::MAX - 10, 0));
    assert!(!m.check_fits(i32::MAX, 0, 0));
    assert!(m.check_fits(20, 0, i32::MIN));
    assert!(!m.check_fits(20, 0, i32::MAX - 50));
    assert!(m.check_fits(-20, 0, 0));
}
