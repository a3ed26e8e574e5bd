use make_it_braille::{BrailleImg, Error};

#[test]
fn str_len() {
    let img = BrailleImg::new(63, 21);
    let string_form = img.as_str(true, true);
    assert_eq!(string_form.len(), string_form.capacity())
}

#[test]
fn bounds_check() {
    let mut img = BrailleImg::new(32, 32);

    assert!(img.set_dot(0, 0, true).is_ok());
    assert!(img.set_dot(1, 1, true).is_ok());
    assert!(img.set_dot(31, 31, true).is_ok());
    assert!(img.set_dot(32, 31, true).is_err());
    assert!(img.set_dot(31, 32, true).is_err());

    assert!(img.get_dot(0, 0).is_some());
    assert!(img.get_dot(1, 1).is_some());
    assert!(img.get_dot(31, 31).is_some());
    assert!(img.get_dot(32, 31).is_none());
    assert!(img.get_dot(31, 32).is_none());
}

#[test]
fn get_dot() {
    let mut img = BrailleImg::new(4, 4);

    assert_eq!(img.get_dot(0, 0), Some(false));
    img.set_dot(0, 0, true).unwrap();
    assert_eq!(img.get_dot(0, 0), Some(true));
}

#[test]
fn new_rounds_cells_up() {
    let img = BrailleImg::new(5, 9);
    assert_eq!(img.char_width(), 3);
    assert_eq!(img.char_height(), 3);
    for x in 0..5 {
        for y in 0..9 {
            assert_eq!(img.get_dot(x, y), Some(false));
        }
    }
    let text = img.as_str(false, true);
    assert_eq!(text.chars().count(), 3 * 3 + 2);
    assert_eq!(text, "\u{2800}\u{2800}\u{2800}\n\u{2800}\u{2800}\u{2800}\n\u{2800}\u{2800}\u{2800}");
}

#[test]
fn new_single_dot() {
    let img = BrailleImg::new(1, 1);
    assert_eq!(img.char_width(), 1);
    assert_eq!(img.char_height(), 1);
    assert_eq!(img.as_str(true, true), "\u{2804}");
}

#[test]
fn new_63_by_21() {
    let img = BrailleImg::new(63, 21);
    assert_eq!(img.char_width(), 32);
    assert_eq!(img.char_height(), 6);
    let text = img.as_str(true, true);
    assert_eq!(text.chars().count(), 32 * 6 + 5);
    assert_eq!(text.len(), 32 * 6 * 3 + 5);
    assert_eq!(text.matches('\n').count(), 5);
    assert!(text.chars().all(|c| c == '\n' || c == '\u{2804}'));
}

#[test]
fn set_then_get_round_trip() {
    let mut img = BrailleImg::new(7, 11);
    for x in 0..7 {
        for y in 0..11 {
            assert_eq!(img.set_dot(x, y, true), Ok(()));
            assert_eq!(img.get_dot(x, y), Some(true));
            assert_eq!(img.set_dot(x, y, false), Ok(()));
            assert_eq!(img.get_dot(x, y), Some(false));
        }
    }
}

#[test]
fn set_dot_leaves_neighbours() {
    let mut img = BrailleImg::new(4, 8);
    img.set_dot(1, 2, true).unwrap();
    for x in 0..4 {
        for y in 0..8 {
            assert_eq!(img.get_dot(x, y), Some(x == 1 && y == 2));
        }
    }
}

#[test]
fn out_of_bounds_error_carries_cell_size() {
    let mut img = BrailleImg::new(32, 32);
    assert_eq!(img.set_dot(32, 31, true), Err(Error::OutOfBounds(32, 31, 16, 8)));
    assert_eq!(img.set_dot(0, 40, false), Err(Error::OutOfBounds(0, 40, 16, 8)));
    assert_eq!(img.get_dot(100, 0), None);
    assert_eq!(img.as_str(false, false).chars().filter(|c| *c != '\u{2800}' && *c != ' ').count(), 0);
}

#[test]
fn bit_layout() {
    let cases: [(u32, u32, char); 8] = [
        (0, 0, '\u{2801}'),
        (0, 1, '\u{2802}'),
        (0, 2, '\u{2804}'),
        (1, 0, '\u{2808}'),
        (1, 1, '\u{2810}'),
        (1, 2, '\u{2820}'),
        (0, 3, '\u{2840}'),
        (1, 3, '\u{2880}'),
    ];
    for (x, y, c) in cases {
        let mut img = BrailleImg::new(2, 4);
        img.set_dot(x, y, true).unwrap();
        assert_eq!(img.as_str(false, true), c.to_string());
    }
}

#[test]
fn second_cell_bit_zero() {
    let mut img = BrailleImg::new(4, 4);
    img.set_dot(2, 0, true).unwrap();
    assert_eq!(img.as_str(false, true), "\u{2800}\u{2801}");
    assert_eq!(img.as_str(true, true), "\u{2804}\u{2801}");
}

#[test]
fn full_cell_and_separators() {
    let mut img = BrailleImg::new(2, 8);
    for x in 0..2 {
        for y in 0..4 {
            img.set_dot(x, y, true).unwrap();
        }
    }
    assert_eq!(img.as_str(true, true), "\u{28ff}\n\u{2804}");
    assert_eq!(img.as_str(false, false), "\u{28ff} \u{2800}");
    assert_eq!(img.to_str(true, false), "\u{28ff} \u{2804}");
}

#[test]
fn can_hold_small_grids() {
    assert!(BrailleImg::can_hold(63, 21));
    assert!(BrailleImg::can_hold(1, 1));
    assert!(BrailleImg::can_hold(u32::MAX, u32::MAX));
}
