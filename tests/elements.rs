use matrix_sketch::excalidraw::elements;
use matrix_sketch::excalidraw::{AppState, Element, ExcalidrawFile};

fn plain_style_of(e: &Element) -> (i32, String, String, String, i32, String, i32, i32, String) {
    match e {
        Element::Text {
            angle,
            stroke_color,
            background_color,
            fill_style,
            stroke_width,
            stroke_style,
            roughness,
            opacity,
            stroke_sharpness,
            ..
        }
        | Element::Line {
            angle,
            stroke_color,
            background_color,
            fill_style,
            stroke_width,
            stroke_style,
            roughness,
            opacity,
            stroke_sharpness,
            ..
        }
        | Element::Rectangle {
            angle,
            stroke_color,
            background_color,
            fill_style,
            stroke_width,
            stroke_style,
            roughness,
            opacity,
            stroke_sharpness,
            ..
        } => (
            *angle,
            stroke_color.clone(),
            background_color.clone(),
            fill_style.clone(),
            *stroke_width,
            stroke_style.clone(),
            *roughness,
            *opacity,
            stroke_sharpness.clone(),
        ),
    }
}

fn assert_plain(e: &Element) {
    let (angle, stroke, background, fill, width, style, roughness, opacity, sharpness) =
        plain_style_of(e);
    assert_eq!(angle, 0);
    assert_eq!(stroke, "#000000");
    assert_eq!(background, "transparent");
    assert_eq!(fill, "hachure");
    assert_eq!(width, 1);
    assert_eq!(style, "solid");
    assert_eq!(roughness, 0);
    assert_eq!(opacity, 100);
    assert_eq!(sharpness, "sharp");
}

fn text_box(e: &Element) -> (i32, i32, i32, i32, String) {
    match e {
        Element::Text { x, y, width, height, text, .. } => (*x, *y, *width, *height, text.clone()),
        _ => panic!("not a text"),
    }
}

fn line_box(e: &Element) -> (i32, i32, i32, i32, Vec<[i32; 2]>) {
    match e {
        Element::Line { x, y, width, height, points, .. } => {
            (*x, *y, *width, *height, points.clone())
        },
        _ => panic!("not a line"),
    }
}

#[test]
fn text_sets_roughness_and_baseline() {
    let e = Element::text(
        1,
        2,
        30,
        40,
        5,
        "red".to_string(),
        "blue".to_string(),
        "solid".to_string(),
        2,
        "dashed".to_string(),
        50,
        "round".to_string(),
        true,
        "hi".to_string(),
        20,
        1,
        "center".to_string(),
        "bottom".to_string(),
    );
    match e {
        Element::Text {
            x,
            y,
            width,
            height,
            angle,
            stroke_color,
            background_color,
            fill_style,
            stroke_width,
            stroke_style,
            roughness,
            opacity,
            stroke_sharpness,
            locked,
            text,
            font_size,
            font_family,
            text_align,
            vertical_align,
            baseline,
        } => {
            assert_eq!((x, y, width, height, angle), (1, 2, 30, 40, 5));
            assert_eq!(stroke_color, "red");
            assert_eq!(background_color, "blue");
            assert_eq!(fill_style, "solid");
            assert_eq!(stroke_width, 2);
            assert_eq!(stroke_style, "dashed");
            assert_eq!(roughness, 0);
            assert_eq!(opacity, 50);
            assert_eq!(stroke_sharpness, "round");
            assert!(locked);
            assert_eq!(text, "hi");
            assert_eq!((font_size, font_family), (20, 1));
            assert_eq!(text_align, "center");
            assert_eq!(vertical_align, "bottom");
            assert_eq!(baseline, 15);
        },
        _ => panic!("not a text"),
    }
}

#[test]
fn line_keeps_its_points() {
    let e = Element::line(
        3,
        4,
        10,
        20,
        0,
        "a".to_string(),
        "b".to_string(),
        "c".to_string(),
        1,
        "d".to_string(),
        100,
        "e".to_string(),
        false,
        vec![[0, 0], [10, 20]],
    );
    match e {
        Element::Line { x, y, width, height, roughness, locked, points, .. } => {
            assert_eq!((x, y, width, height, roughness), (3, 4, 10, 20, 0));
            assert!(!locked);
            assert_eq!(points, vec![[0, 0], [10, 20]]);
        },
        _ => panic!("not a line"),
    }
}

#[test]
fn rectangle_sets_roughness() {
    let e = Element::rectangle(
        -1,
        -2,
        7,
        8,
        9,
        "a".to_string(),
        "b".to_string(),
        "c".to_string(),
        3,
        "d".to_string(),
        60,
        "e".to_string(),
        true,
    );
    match e {
        Element::Rectangle { x, y, width, height, angle, roughness, opacity, locked, .. } => {
            assert_eq!((x, y, width, height, angle, roughness, opacity), (-1, -2, 7, 8, 9, 0, 60));
            assert!(locked);
        },
        _ => panic!("not a rectangle"),
    }
}

#[test]
fn small_text_is_sized_to_its_characters_and_lines() {
    let e = Element::draw_small_monospaced_text(5, 6, true, "abc".to_string());
    assert_eq!(text_box(&e), (5, 6, 31, 19, "abc".to_string()));
    assert_plain(&e);
    match e {
        Element::Text { font_size, font_family, text_align, vertical_align, baseline, locked, .. } => {
            assert_eq!(font_size, elements::FONT_SIZE_SMALL);
            assert_eq!(font_family, elements::FONT_FAMILY_MONOSPACE);
            assert_eq!(text_align, "left");
            assert_eq!(vertical_align, "top");
            assert_eq!(baseline, 15);
            assert!(locked);
        },
        _ => panic!("not a text"),
    }
}

#[test]
fn small_text_counts_lines_like_str_lines() {
    let two = Element::draw_small_monospaced_text(0, 0, false, "ab\ncd".to_string());
    assert_eq!(text_box(&two).2, 4 + 5 * 9);
    assert_eq!(text_box(&two).3, 38);
    let trailing = Element::draw_small_monospaced_text(0, 0, false, "ab\n".to_string());
    assert_eq!(text_box(&trailing).3, 19);
    let blank = Element::draw_small_monospaced_text(0, 0, false, "\n\n".to_string());
    assert_eq!(text_box(&blank).3, 38);
    let empty = Element::draw_small_monospaced_text(0, 0, false, String::new());
    assert_eq!(text_box(&empty).2, 4);
    assert_eq!(text_box(&empty).3, 0);
}

#[test]
fn small_text_counts_characters_not_bytes() {
    let e = Element::draw_small_monospaced_text(0, 0, false, "\u{e9}t\u{e9}".to_string());
    assert_eq!(text_box(&e).2, 4 + 3 * 9);
}

#[test]
fn simple_line_is_sized_to_its_points() {
    let pts = vec![[20, 0], [0, 0], [0, 100], [20, 100]];
    let e = Element::simple_line(7, 8, false, pts.clone());
    assert_eq!(line_box(&e), (7, 8, 20, 100, pts));
    assert_plain(&e);
}

#[test]
fn simple_line_box_holds_the_origin() {
    let e = Element::simple_line(0, 0, false, vec![[-5, 3], [7, -2]]);
    assert_eq!(line_box(&e).2, 12);
    assert_eq!(line_box(&e).3, 5);
    let far = Element::simple_line(0, 0, false, vec![[5, 6], [9, 8]]);
    assert_eq!(line_box(&far).2, 9);
    assert_eq!(line_box(&far).3, 8);
    let none = Element::simple_line(0, 0, true, Vec::new());
    assert_eq!(line_box(&none).2, 0);
    assert_eq!(line_box(&none).3, 0);
}

#[test]
fn simple_rectangle_has_plain_style() {
    let e = Element::simple_rectangle(1, 2, 3, 4, true);
    assert_plain(&e);
    match e {
        Element::Rectangle { x, y, width, height, locked, .. } => {
            assert_eq!((x, y, width, height), (1, 2, 3, 4));
            assert!(locked);
        },
        _ => panic!("not a rectangle"),
    }
}

#[test]
fn app_state_default_grid() {
    let a = AppState::default();
    assert_eq!(a.grid_size, 20);
    assert_eq!(a.view_background_color, "#ffffff");
}

#[test]
fn file_default_is_empty() {
    let f = ExcalidrawFile::default();
    assert_eq!(f.file_type, "excalidraw");
    assert_eq!(f.version, 2);
    assert!(f.source.is_none());
    assert!(f.elements.is_empty());
    assert_eq!(f.app_state.grid_size, 20);
    assert_eq!(f.app_state.view_background_color, "#ffffff");
    assert!(f.files.is_empty());
}
