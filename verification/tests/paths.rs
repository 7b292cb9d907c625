use psp_playlist_maker::paths::{components, extension, file_name, relative_components};

fn strings(parts: &[&str]) -> Vec<String> {
    parts.iter().map(|part| part.to_string()).collect()
}

#[test]
fn components_of_an_absolute_path() {
    assert_eq!(
        components("/home/user/psp/MUSIC/Rock/Song.mp3"),
        strings(&["/", "home", "user", "psp", "MUSIC", "Rock", "Song.mp3"])
    );
}

#[test]
fn components_of_a_relative_path() {
    assert_eq!(components("music/Artist/Song.mp3"), strings(&["music", "Artist", "Song.mp3"]));
}

#[test]
fn components_skip_empty_segments_and_inner_dots() {
    assert_eq!(components("a//b/./c/"), strings(&["a", "b", "c"]));
    assert_eq!(components("//a"), strings(&["/", "a"]));
    assert_eq!(components("/./a"), strings(&["/", "a"]));
}

#[test]
fn components_keep_a_leading_dot_and_parent_markers() {
    assert_eq!(components("./a"), strings(&[".", "a"]));
    assert_eq!(components("."), strings(&["."]));
    assert_eq!(components("a/../b"), strings(&["a", "..", "b"]));
}

#[test]
fn components_of_the_empty_path_and_of_the_root() {
    assert_eq!(components(""), Vec::<String>::new());
    assert_eq!(components("/"), strings(&["/"]));
}

#[test]
fn components_agree_with_the_standard_library() {
    let samples = [
        "",
        "/",
        ".",
        "..",
        "./",
        "a",
        "a/",
        "/a",
        "//a//b//",
        "./a/./b",
        "../a",
        "a/..",
        "/./.",
        "/home/user/My Music/01 - Song.MP3",
        "a/.hidden",
        "a/b.tar.gz",
    ];
    for sample in samples {
        let expected: Vec<String> = std::path::Path::new(sample)
            .components()
            .map(|part| part.as_os_str().to_string_lossy().to_string())
            .collect();
        assert_eq!(components(sample), expected, "components of {:?}", sample);
    }
}

#[test]
fn file_name_is_the_last_normal_component() {
    assert_eq!(file_name("/tmp/Song.mp3"), Some("Song.mp3".to_string()));
    assert_eq!(file_name("dir/"), Some("dir".to_string()));
    assert_eq!(file_name("a/.."), None);
    assert_eq!(file_name("/"), None);
    assert_eq!(file_name("."), None);
    assert_eq!(file_name(""), None);
}

#[test]
fn extension_follows_the_last_dot() {
    assert_eq!(extension("a/b.tar.gz"), Some("gz".to_string()));
    assert_eq!(extension("Song.MP3"), Some("MP3".to_string()));
    assert_eq!(extension("name."), Some("".to_string()));
}

#[test]
fn extension_is_absent_without_a_dot_or_a_stem() {
    assert_eq!(extension("README"), None);
    assert_eq!(extension(".hidden"), None);
    assert_eq!(extension("a/.."), None);
    assert_eq!(extension(""), None);
}

#[test]
fn extension_agrees_with_the_standard_library() {
    let samples = ["a.mp3", "a.b.c", ".a", ".a.b", "a.", "..", "dir.d/file", "x/.y.z/", "é.ogg"];
    for sample in samples {
        let expected = std::path::Path::new(sample)
            .extension()
            .map(|ext| ext.to_string_lossy().to_string());
        assert_eq!(extension(sample), expected, "extension of {:?}", sample);
    }
}

#[test]
fn relative_components_drop_the_root_directory() {
    assert_eq!(
        relative_components("/mnt/psp/MUSIC", "/mnt/psp/MUSIC/Artist/Album/Song.mp3"),
        strings(&["Artist", "Album", "Song.mp3"])
    );
    assert_eq!(
        relative_components("music/", "music/Artist/Song.mp3"),
        strings(&["Artist", "Song.mp3"])
    );
}

#[test]
fn relative_components_of_a_path_elsewhere_are_all_of_it() {
    assert_eq!(
        relative_components("/music", "/other/Song.mp3"),
        strings(&["/", "other", "Song.mp3"])
    );
    assert_eq!(relative_components("/music/deep", "/music"), strings(&["/", "music"]));
}
