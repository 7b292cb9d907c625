use psp_playlist_maker::browser::{compare_texts, Standing};
use psp_playlist_maker::paths::{components, extension, file_name, relative_components};
use psp_playlist_maker::playlist::{is_marker_name, to_psp_path};
use psp_playlist_maker::scan::has_audio_extension;
use psp_playlist_maker::store::{escape_path, unescape_path};
use std::path::Path;

/// A small generator of repeatable pseudo-random texts over a given alphabet.
struct Texts {
    state: u64,
    alphabet: Vec<char>,
}

impl Texts {
    fn new(seed: u64, alphabet: &str) -> Texts {
        Texts { state: seed, alphabet: alphabet.chars().collect() }
    }

    fn number(&mut self, below: usize) -> usize {
        self.state = self.state.wrapping_mul(6364136223846793005).wrapping_add(1442695040888963407);
        ((self.state >> 33) as usize) % below
    }

    fn text(&mut self, longest: usize) -> String {
        let length = self.number(longest + 1);
        let mut text = String::new();
        for _ in 0..length {
            let at = self.number(self.alphabet.len());
            text.push(self.alphabet[at]);
        }
        text
    }
}

fn parts_by_std(path: &Path) -> Vec<String> {
    path.components().map(|part| part.as_os_str().to_string_lossy().to_string()).collect()
}

fn device_path_by_std(full_path: &str) -> String {
    let path = Path::new(full_path);
    let parts = parts_by_std(path);
    match parts.iter().position(|part| part.to_uppercase() == "MUSIC") {
        Some(at) => format!("/{}", parts[at..].join("/")),
        None => {
            let name = path.file_name().unwrap_or_default().to_string_lossy().to_string();
            format!("/MUSIC/{}", name)
        }
    }
}

#[test]
fn generated_paths_split_as_the_standard_library_splits_them() {
    let mut texts = Texts::new(1, "//..ab ");
    for _ in 0..20000 {
        let path = texts.text(12);
        assert_eq!(components(&path), parts_by_std(Path::new(&path)), "components of {:?}", path);
    }
}

#[test]
fn generated_paths_have_the_file_name_of_the_standard_library() {
    let mut texts = Texts::new(2, "//..ab");
    for _ in 0..20000 {
        let path = texts.text(10);
        let expected = Path::new(&path).file_name().map(|name| name.to_string_lossy().to_string());
        assert_eq!(file_name(&path), expected, "file name of {:?}", path);
    }
}

#[test]
fn generated_paths_have_the_extension_of_the_standard_library() {
    let mut texts = Texts::new(3, "/...ab");
    for _ in 0..20000 {
        let path = texts.text(10);
        let expected = Path::new(&path).extension().map(|ext| ext.to_string_lossy().to_string());
        assert_eq!(extension(&path), expected, "extension of {:?}", path);
    }
}

#[test]
fn generated_paths_are_made_relative_as_by_strip_prefix() {
    let mut texts = Texts::new(4, "//.ab");
    for _ in 0..20000 {
        let root = texts.text(5);
        let path = if texts.number(2) == 0 {
            format!("{}/{}", root, texts.text(8))
        } else {
            texts.text(10)
        };
        let whole = Path::new(&path);
        let expected = match whole.strip_prefix(&root) {
            Ok(rest) => parts_by_std(rest),
            Err(_) => parts_by_std(whole),
        };
        assert_eq!(relative_components(&root, &path), expected, "{:?} below {:?}", path, root);
    }
}

#[test]
fn generated_paths_get_the_device_path_of_a_search_with_the_standard_library() {
    let mut words = Texts::new(5, "MUSICmusic\u{17f}\u{131}\u{df}\u{fb06}\u{130}");
    let mut texts = Texts::new(6, "//.a M");
    for _ in 0..20000 {
        let mut path = texts.text(6);
        for _ in 0..words.number(3) {
            let word = match words.number(4) {
                0 => "MUSIC".to_string(),
                1 => "music".to_string(),
                2 => "Music".to_string(),
                _ => words.text(6),
            };
            path = format!("{}/{}/{}", path, word, texts.text(5));
        }
        assert_eq!(to_psp_path(&path), device_path_by_std(&path), "device path of {:?}", path);
    }
}

#[test]
fn unusual_letters_count_as_the_standard_library_counts_them() {
    for path in ["/x/mu\u{17f}ic/a.mp3", "/x/mus\u{131}c/a.mp3", "/x/MÜSIC/a.mp3", "/x/ＭＵＳＩＣ/a.mp3"] {
        assert_eq!(to_psp_path(path), device_path_by_std(path), "device path of {:?}", path);
    }
    assert_eq!(to_psp_path("/x/mu\u{17f}ic/a.mp3"), "/mu\u{17f}ic/a.mp3");
}

#[test]
fn generated_names_pass_the_audio_filter_as_their_lower_case_extension_says() {
    let mut texts = Texts::new(7, "mMpP3fFlLaAcCwWvV4./x\u{212a}\u{130}\u{ff2d}\u{3a3}");
    for _ in 0..20000 {
        let path = texts.text(9);
        let expected = match Path::new(&path).extension().and_then(|ext| ext.to_str()) {
            Some(ext) => matches!(ext.to_lowercase().as_str(), "mp3" | "flac" | "wav" | "m4a"),
            None => false,
        };
        assert_eq!(has_audio_extension(&path), expected, "audio filter on {:?}", path);
    }
}

#[test]
fn generated_paths_without_percent_signs_are_escaped_as_by_replace() {
    let mut texts = Texts::new(8, " 20a/");
    for _ in 0..20000 {
        let path = texts.text(12);
        assert_eq!(escape_path(&path), path.replace(" ", "%20"), "escape of {:?}", path);
    }
}

#[test]
fn generated_paths_come_back_as_they_were_saved() {
    let mut texts = Texts::new(9, " %205a");
    let mut with_token = 0;
    for _ in 0..20000 {
        let path = texts.text(10);
        let stored = escape_path(&path);
        assert!(!stored.contains(' '), "stored form of {:?}", path);
        assert_eq!(unescape_path(&stored), path, "round trip of {:?}", path);
        if path.contains("%20") || path.contains("%25") {
            with_token += 1;
        }
    }
    assert!(with_token > 0);
}

#[test]
fn generated_paths_are_stored_as_different_texts() {
    let mut texts = Texts::new(11, " %205");
    for _ in 0..20000 {
        let one = texts.text(5);
        let other = texts.text(5);
        assert_eq!(escape_path(&one) == escape_path(&other), one == other, "{:?}, {:?}", one, other);
    }
}

#[test]
fn generated_texts_compare_as_strings_compare() {
    let mut texts = Texts::new(10, "abAé日\u{10000}");
    for _ in 0..20000 {
        let left = texts.text(4);
        let right = texts.text(4);
        let expected = if left < right {
            Standing::Before
        } else if left == right {
            Standing::Same
        } else {
            Standing::After
        };
        assert_eq!(compare_texts(&left, &right), expected, "{:?} against {:?}", left, right);
    }
}

fn passes_by_to_lowercase(path: &str) -> bool {
    match Path::new(path).extension().and_then(|ext| ext.to_str()) {
        Some(ext) => matches!(ext.to_lowercase().as_str(), "mp3" | "flac" | "wav" | "m4a"),
        None => false,
    }
}

fn every_character_in_place(extension: &str) {
    let letters: Vec<char> = extension.chars().collect();
    for code in 0..=0x10ffffu32 {
        if let Some(c) = char::from_u32(code) {
            for place in 0..letters.len() {
                let mut changed = letters.clone();
                changed[place] = c;
                let path: String = "a.".chars().chain(changed.into_iter()).collect();
                assert_eq!(
                    has_audio_extension(&path),
                    passes_by_to_lowercase(&path),
                    "audio filter on {:?}",
                    path
                );
            }
        }
    }
}

#[test]
fn no_character_in_mp3_is_judged_otherwise_than_by_to_lowercase() {
    every_character_in_place("mp3");
}

#[test]
fn no_character_in_flac_is_judged_otherwise_than_by_to_lowercase() {
    every_character_in_place("flac");
}

#[test]
fn no_character_in_wav_is_judged_otherwise_than_by_to_lowercase() {
    every_character_in_place("wav");
}

#[test]
fn no_character_in_m4a_is_judged_otherwise_than_by_to_lowercase() {
    every_character_in_place("m4a");
}

#[test]
fn no_character_outside_ascii_becomes_a_letter_of_an_extension() {
    for code in 0x80..=0x10ffffu32 {
        if let Some(c) = char::from_u32(code) {
            let lower: String = c.to_lowercase().collect();
            assert!(
                lower.chars().any(|l| !"mp3flacwav4".contains(l)),
                "{:?} becomes {:?}",
                c,
                lower
            );
        }
    }
}

fn every_character_in_place_of_the_name(place: usize) {
    let letters: Vec<char> = "MUSIC".chars().collect();
    for code in 0..=0x10ffffu32 {
        if let Some(c) = char::from_u32(code) {
            let mut changed = letters.clone();
            changed[place] = c;
            let name: String = changed.into_iter().collect();
            assert_eq!(is_marker_name(&name), name.to_uppercase() == "MUSIC", "name {:?}", name);
        }
    }
}

#[test]
fn no_character_for_the_m_is_judged_otherwise_than_by_to_uppercase() {
    every_character_in_place_of_the_name(0);
}

#[test]
fn no_character_for_the_u_is_judged_otherwise_than_by_to_uppercase() {
    every_character_in_place_of_the_name(1);
}

#[test]
fn no_character_for_the_s_is_judged_otherwise_than_by_to_uppercase() {
    every_character_in_place_of_the_name(2);
}

#[test]
fn no_character_for_the_i_is_judged_otherwise_than_by_to_uppercase() {
    every_character_in_place_of_the_name(3);
}

#[test]
fn no_character_for_the_c_is_judged_otherwise_than_by_to_uppercase() {
    every_character_in_place_of_the_name(4);
}

#[test]
fn no_character_stands_for_several_letters_of_the_name() {
    let letters: Vec<char> = "MUSIC".chars().collect();
    let mut with_several = 0;
    for code in 0..=0x10ffffu32 {
        if let Some(c) = char::from_u32(code) {
            if c.to_uppercase().count() < 2 {
                continue;
            }
            with_several += 1;
            for from in 0..letters.len() {
                for to in from + 1..=letters.len() {
                    let mut name: String = letters[..from].iter().collect();
                    name.push(c);
                    name.extend(letters[to..].iter());
                    assert_eq!(
                        is_marker_name(&name),
                        name.to_uppercase() == "MUSIC",
                        "name {:?}",
                        name
                    );
                }
            }
        }
    }
    assert!(with_several > 0);
}

#[test]
fn generated_names_are_judged_as_by_to_uppercase() {
    let mut texts = Texts::new(13, "MUSICmusic\u{17f}\u{131}\u{df}\u{fb06}\u{130}kK");
    let mut found = 0;
    for _ in 0..200000 {
        let name = texts.text(6);
        let expected = name.to_uppercase() == "MUSIC";
        assert_eq!(is_marker_name(&name), expected, "name {:?}", name);
        if expected {
            found += 1;
        }
    }
    assert!(found > 0);
}
