use ascii_image::symbols::CHARACTERS;
use ascii_image::{get_ascii_character, ImageData};

#[test]
fn black_is_the_first_and_white_the_last_character() {
    assert_eq!(' ', get_ascii_character(&0));
    assert_eq!('W', get_ascii_character(&255));
}

#[test]
fn a_character_changes_halfway_between_two_places() {
    assert_eq!(' ', get_ascii_character(&18));
    assert_eq!('.', get_ascii_character(&19));
    assert_eq!('.', get_ascii_character(&54));
    assert_eq!(',', get_ascii_character(&55));
    assert_eq!(',', get_ascii_character(&91));
    assert_eq!(':', get_ascii_character(&92));
    assert_eq!(':', get_ascii_character(&127));
    assert_eq!('i', get_ascii_character(&128));
    assert_eq!('i', get_ascii_character(&163));
    assert_eq!('l', get_ascii_character(&164));
    assert_eq!('l', get_ascii_character(&200));
    assert_eq!('w', get_ascii_character(&201));
    assert_eq!('w', get_ascii_character(&236));
    assert_eq!('W', get_ascii_character(&237));
}

#[test]
fn the_character_is_the_rounded_share_of_the_gradient() {
    for brightness in 0..=255u8 {
        let share = (brightness as f32) / (u8::MAX as f32);
        let place = (share * (CHARACTERS.len() - 1) as f32).round() as usize;
        assert_eq!(CHARACTERS[place], get_ascii_character(&brightness));
    }
}

#[test]
fn a_brighter_sample_never_gets_a_darker_character() {
    let place = |symbol: char| CHARACTERS.iter().position(|other| *other == symbol).unwrap();
    for brightness in 0..255u8 {
        let darker = place(get_ascii_character(&brightness));
        let brighter = place(get_ascii_character(&(brightness + 1)));
        assert!(darker <= brighter);
    }
}

#[test]
fn a_grid_is_rendered_row_by_row() {
    let grid = ImageData { width: 2, height: 2, data: Vec::from([0, 255, 128, 18]) };
    assert_eq!(" W\ni \n", grid.render());
    let grid = ImageData { width: 4, height: 1, data: Vec::from([19, 55, 92, 164]) };
    assert_eq!(".,:l\n", grid.render());
    let grid = ImageData { width: 1, height: 3, data: Vec::from([201, 237, 0]) };
    assert_eq!("w\nW\n \n", grid.render());
}

#[test]
fn a_grid_without_cells_has_no_text() {
    let grid = ImageData { width: 0, height: 0, data: Vec::new() };
    assert_eq!("", grid.render());
    let grid = ImageData { width: 3, height: 0, data: Vec::new() };
    assert_eq!("", grid.render());
    let grid = ImageData { width: 0, height: 3, data: Vec::new() };
    assert_eq!("", grid.render());
}

#[test]
fn what_is_left_after_the_last_whole_row_is_not_shown() {
    let grid = ImageData { width: 2, height: 2, data: Vec::from([255, 255, 255]) };
    assert_eq!("WW\n", grid.render());
    let grid = ImageData { width: 2, height: 1, data: Vec::from([255]) };
    assert_eq!("", grid.render());
}
