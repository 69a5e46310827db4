use media_player::error::PlayerError;
use media_player::prompt::{requested_path, select_audio_file, white_space};

#[test]
fn the_end_of_the_line_is_no_part_of_the_path() {
    assert_eq!(requested_path("song.wav\n"), "song.wav");
    assert_eq!(requested_path("song.wav\r\n"), "song.wav");
    assert_eq!(requested_path("song.wav"), "song.wav");
}

#[test]
fn white_space_around_the_path_is_dropped() {
    assert_eq!(requested_path("  \t /tmp/my song.wav \t\n"), "/tmp/my song.wav");
    assert_eq!(requested_path("\u{3000}a\u{2003}b\u{a0}\u{85}"), "a\u{2003}b");
    assert_eq!(requested_path(" x "), "x");
    assert_eq!(requested_path("x y"), "x y");
}

#[test]
fn a_line_of_white_space_names_the_empty_path() {
    assert_eq!(requested_path(""), "");
    assert_eq!(requested_path("\n"), "");
    assert_eq!(requested_path(" \t \r\n"), "");
}

#[test]
fn other_characters_stay() {
    assert_eq!(requested_path("\u{200b}a\u{200b}"), "\u{200b}a\u{200b}");
    assert_eq!(requested_path("\u{feff}a"), "\u{feff}a");
    assert_eq!(requested_path("\0a\0"), "\0a\0");
    assert_eq!(requested_path("\u{1f}musik-\u{e9}t\u{e9}.wav\u{1c}"), "\u{1f}musik-\u{e9}t\u{e9}.wav\u{1c}");
}

#[test]
fn requested_path_agrees_with_trim_on_every_character() {
    for code in 0..=0x11_0000u32 {
        if let Some(c) = char::from_u32(code) {
            assert_eq!(white_space(c), c.is_whitespace(), "U+{:04X}", code);
        }
    }
    for code in (0..0x3100u32).chain([0xfeff, 0x1_f600]) {
        if let Some(c) = char::from_u32(code) {
            let line = format!("{}a{}b{}", c, c, c);
            assert_eq!(requested_path(&line), line.trim(), "U+{:04X}", code);
        }
    }
}

#[test]
fn a_path_that_exists_is_chosen() {
    assert_eq!(select_audio_file("song.wav".to_string(), true), Ok("song.wav".to_string()));
}

#[test]
fn a_path_that_names_no_file_is_not_found() {
    assert_eq!(select_audio_file("nowhere.wav".to_string(), false), Err(PlayerError::NotFound));
    assert_eq!(select_audio_file(String::new(), false), Err(PlayerError::NotFound));
}
