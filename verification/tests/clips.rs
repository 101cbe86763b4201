use clipsta::clips::{
    choose_output_folder, clips_list, existing_dir, file_time, is_clip, is_video_extension,
    sort_clips, unique_path, ClipFile, FoundFile, FIRST_SECOND, LAST_SECOND,
};
use clipsta::naming::{
    clip_folder, clip_path, full_recording_name, full_recording_name_now, game_name,
    get_active_window_title,
};
use clipsta::path::{file_name_of, join_path, parent_joined, parent_of, split_file_name};

fn clip(name: &str, created_at: &str) -> ClipFile {
    ClipFile {
        name: name.to_string(),
        path: name.to_string(),
        size: 1,
        created_at: created_at.to_string(),
    }
}

#[test]
fn videos_are_told_by_their_extension() {
    for extension in ["mp4", "webm", "mkv", "mov", "MP4", "WebM", "m\u{212A}v"] {
        assert!(is_video_extension(extension), "{}", extension);
    }
    for extension in ["", "avi", "mp4 ", "mp"] {
        assert!(!is_video_extension(extension), "{}", extension);
    }
    assert!(is_clip("mp4", 1));
    assert!(!is_clip("mp4", 0));
    assert!(!is_clip("txt", 1));
}

#[test]
fn the_newest_clip_comes_first() {
    let sorted = sort_clips(vec![
        clip("a", "2026-01-02T00:00:00+00:00"),
        clip("b", "2026-01-03T00:00:00+00:00"),
        clip("c", "2026-01-01T00:00:00+00:00"),
        clip("d", "2026-01-02T00:00:00+00:00"),
        clip("e", ""),
    ]);
    let names: Vec<&str> = sorted.iter().map(|c| c.name.as_str()).collect();
    assert_eq!(names, vec!["b", "a", "d", "c", "e"]);
}

#[test]
fn a_free_name_is_kept() {
    let path = unique_path("C:\\clips", "a.mp4", |_: &String| false);
    assert_eq!(path.as_deref(), Some("C:\\clips\\a.mp4"));
    let path = unique_path("C:\\clips\\", "a.mp4", |_: &String| false);
    assert_eq!(path.as_deref(), Some("C:\\clips\\a.mp4"));
}

#[test]
fn a_name_that_is_taken_gets_a_number() {
    let taken = ["f\\a.mp4", "f\\a (1).mp4", "f\\a (2).mp4"];
    let path = unique_path("f", "a.mp4", |p: &String| taken.contains(&p.as_str()));
    assert_eq!(path.as_deref(), Some("f\\a (3).mp4"));
    let path = unique_path("f", "noext", |p: &String| p == "f\\noext");
    assert_eq!(path.as_deref(), Some("f\\noext (1)"));
    let path = unique_path("f", ".hidden", |p: &String| p == "f\\.hidden");
    assert_eq!(path.as_deref(), Some("f\\.hidden (1)"));
    let path = unique_path("f", "a.b.mp4", |p: &String| p == "f\\a.b.mp4");
    assert_eq!(path.as_deref(), Some("f\\a.b (1).mp4"));
    let path = unique_path("f", "dot.", |p: &String| p == "f\\dot.");
    assert_eq!(path.as_deref(), Some("f\\dot (1)"));
    let path = unique_path("f", "..", |p: &String| p == "f\\..");
    assert_eq!(path.as_deref(), Some("f\\ (1)"));
}

#[test]
fn file_names_split_into_stem_and_extension() {
    assert_eq!(split_file_name("a.tar.gz"), ("a.tar".to_string(), "gz".to_string()));
    assert_eq!(split_file_name("a"), ("a".to_string(), String::new()));
    assert_eq!(split_file_name(".a"), (".a".to_string(), String::new()));
    assert_eq!(split_file_name("..."), ("..".to_string(), String::new()));
    assert_eq!(split_file_name("."), (String::new(), String::new()));
    assert_eq!(split_file_name(""), (String::new(), String::new()));
}

#[test]
fn paths_are_joined_with_one_separator() {
    assert_eq!(join_path("C:\\a", "b"), "C:\\a\\b");
    assert_eq!(join_path("C:\\a\\", "b"), "C:\\a\\b");
    assert_eq!(join_path("C:/a/", "b"), "C:/a/b");
    assert_eq!(join_path("C:", "b"), "C:b");
    assert_eq!(join_path("", "b"), "b");
    assert_eq!(join_path(".", "b"), ".\\b");
}

#[test]
fn names_with_a_drive_or_a_root_are_not_put_behind() {
    assert_eq!(join_path("C:\\a", "D:\\b"), "D:\\b");
    assert_eq!(join_path("C:\\a", "D:b"), "D:b");
    assert_eq!(join_path("C:\\a", "\\\\server\\share\\b"), "\\\\server\\share\\b");
    assert_eq!(join_path("C:\\a", "\\b"), "C:\\b");
    assert_eq!(join_path("C:\\a", "/b"), "C:/b");
    assert_eq!(join_path("\\\\server\\share\\a", "\\b"), "\\\\server\\share\\b");
    assert_eq!(join_path("a\\b", "\\c"), "\\c");
    assert_eq!(clip_path("C:\\clips", "D:\\x 1.mp4"), "D:\\x 1.mp4");
    let path = unique_path("C:\\clips", "D:\\x.mp4", |p: &String| p == "D:\\x.mp4");
    assert_eq!(path.as_deref(), Some("C:\\clips\\x (1).mp4"));
}

#[test]
fn another_file_in_the_same_directory() {
    assert_eq!(parent_joined("C:\\a\\b.mp4", "c.mp4").as_deref(), Some("C:\\a\\c.mp4"));
    assert_eq!(parent_joined("C:\\b.mp4", "c.mp4").as_deref(), Some("C:\\c.mp4"));
    assert_eq!(parent_joined("C:b.mp4", "c.mp4").as_deref(), Some("C:c.mp4"));
    assert_eq!(parent_joined("b.mp4", "c.mp4").as_deref(), Some("c.mp4"));
    assert_eq!(parent_joined("C:\\", "c.mp4"), None);
    assert_eq!(parent_joined("\\\\server\\share", "c.mp4"), None);
    assert_eq!(parent_joined("", "c.mp4"), None);
}

#[test]
fn names_are_followed_from_verbatim_directories() {
    let joins = [
        (r"\\?\C:\a", "b/c", r"\\?\C:\a\b\c"),
        (r"\\?\C:\bar", "../foo", r"\\?\C:\foo"),
        (r"\\?\C:\bar", "../../foo", r"\\?\C:\foo"),
        (r"\\?\C:\", "../foo", r"\\?\C:\foo"),
        (r"\\?\C:", r"D:\foo/./", r"D:\foo/./"),
        (r"\\?\C:", r"\\?\D:\foo\.\", r"\\?\D:\foo\.\"),
        (r"\\?\A:\x\y", "/foo", r"\\?\A:\foo"),
        (r"\\?\A:", r"..\foo\.", r"\\?\A:\foo"),
        (r"\\?\A:\x\y", r".\foo\.", r"\\?\A:\x\y\foo"),
        (r"\\?\A:\x\y", "", r"\\?\A:\x\y\"),
        (r"\\?\A:\x", "..", r"\\?\A:\"),
        (r"\\?\A:", ".", r"\\?\A:"),
        (r"\\?\A:\x\.", "..", r"\\?\A:\x\."),
        (r"\\?\A:\x/y", "z", r"\\?\A:\x/y\z"),
        (r"\\?\A:/x", "z", r"\\?\A:\x\z"),
        (r"\\?\UNC\server\share\foo", "bar", r"\\?\UNC\server\share\foo\bar"),
        (r"\\?\UNC\server\share\foo", "/bar", r"\\?\UNC\server\share\bar"),
        (r"\\?\UNC\server", "foo", r"\\?\UNC\server\foo"),
        (r"\\?\pictures\a", "\\b", r"\\?\pictures\b"),
        (r"//?/C:/a", "b/c", r"//?/C:/a\b/c"),
        (r"\\.\foo\bar", "baz", r"\\.\foo\bar\baz"),
        (r"\\.\foo", r"..\bar", r"\\.\foo\..\bar"),
        (r"\\.\foo\bar", r"\baz", r"\\.\foo\baz"),
        (r"C:\a", r"\\.\", r"\\.\"),
    ];
    for (dir, name, path) in joins {
        assert_eq!(join_path(dir, name), path, "{} and {}", dir, name);
    }
}

#[test]
fn verbatim_paths_are_taken_apart() {
    let paths = [
        (r"\\?\bar\foo.txt", Some(r"\\?\bar\"), "foo.txt"),
        (r"\\?\bar", None, ""),
        (r"\\?\", None, ""),
        (r"\\?\UNC\server\share\foo.txt", Some(r"\\?\UNC\server\share\"), "foo.txt"),
        (r"\\?\UNC\server\share", None, ""),
        (r"\\?\UNC\server", None, ""),
        (r"\\?\UNC\", None, ""),
        (r"\\?\C:\foo.txt", Some(r"\\?\C:\"), "foo.txt"),
        (r"\\?\C:\", None, ""),
        (r"\\?\C:", None, ""),
        (r"\\?\foo/bar", None, ""),
        (r"\\?\C:/foo/bar", Some(r"\\?\C:/"), "foo/bar"),
        (r"\\?\a\b\", Some(r"\\?\a\"), "b"),
        (r"\\?\a\b\.", Some(r"\\?\a\b"), ""),
        (r"\\.\foo\bar", Some(r"\\.\foo\"), "bar"),
        (r"\\.\foo", None, ""),
        (r"\\.\foo/bar", Some(r"\\.\foo/"), "bar"),
        (r"\\.\", None, ""),
        (r"\\server", Some(r"\"), "server"),
        (r"C:.", None, ""),
        (r"C:.\a", Some("C:."), "a"),
    ];
    for (path, parent, name) in paths {
        assert_eq!(parent_of(path).as_deref(), parent, "{}", path);
        assert_eq!(file_name_of(path), name, "{}", path);
    }
    let path = unique_path(r"\\?\C:\clips", "a/../x.mp4", |p: &String| p.ends_with("\\x.mp4"));
    assert_eq!(path.as_deref(), Some(r"\\?\C:\clips\x (1).mp4"));
}

/// With slashes, and without drives, paths are taken apart as on other systems.
#[test]
fn paths_are_taken_apart_as_elsewhere() {
    let parts = ["", "/", ".", "..", "a", "b.c", "./", "../", "/.", "a/", "//"];
    for x in parts {
        for y in parts {
            for z in parts {
                let path = format!("{}{}{}", x, y, z);
                if path.starts_with("//") {
                    continue;
                }
                let std_path = std::path::Path::new(&path);
                assert_eq!(
                    parent_of(&path),
                    std_path.parent().map(|p| p.to_string_lossy().to_string()),
                    "{}",
                    path
                );
                let name = std_path.file_name().map(|s| s.to_string_lossy().to_string());
                let stem = std_path.file_stem().map(|s| s.to_string_lossy().to_string());
                let extension = std_path.extension().map(|s| s.to_string_lossy().to_string());
                assert_eq!(file_name_of(&path), name.unwrap_or_default(), "{}", path);
                let split = (stem.unwrap_or_default(), extension.unwrap_or_default());
                assert_eq!(split_file_name(&path), split, "{}", path);
            }
        }
    }
}

#[test]
fn times_of_files() {
    for (secs, nanos) in [(0, 0), (1_700_000_000, 120_000_000), (-1, 5_000), (86_399, 7)] {
        let text = file_time(secs, nanos);
        let time = chrono::DateTime::parse_from_rfc3339(&text).unwrap();
        assert_eq!((time.timestamp(), time.timestamp_subsec_nanos()), (secs, nanos), "{}", text);
        let expected = match nanos {
            0 => 25,
            120_000_000 => 29,
            5_000 => 32,
            _ => 35,
        };
        assert_eq!(text.len(), expected);
    }
    assert!(file_time(FIRST_SECOND, 0).starts_with("-262"));
    assert!(file_time(LAST_SECOND, 999_999_999).starts_with("+262"));
}

#[test]
fn the_output_folder_is_chosen_once() {
    let chosen = choose_output_folder("", Some("C:\\Users\\u\\Videos"), Some("C:\\Users\\u"));
    assert_eq!(chosen.folder, "C:\\Users\\u\\Videos\\Clipsta");
    assert!(chosen.is_new);
    let home = choose_output_folder("", None, Some("C:\\Users\\u"));
    assert_eq!(home.folder, "C:\\Users\\u\\Clipsta");
    assert_eq!(choose_output_folder("", None, None).folder, ".\\Clipsta");
    let set = choose_output_folder("D:\\clips", Some("C:\\v"), None);
    assert_eq!(set.folder, "D:\\clips");
    assert!(!set.is_new);
    assert_eq!(existing_dir(None, Some("home")), "home");
    assert_eq!(existing_dir(None, None), ".");
}

#[test]
fn windows_give_their_name_to_clips() {
    assert_eq!(get_active_window_title(Some("Battlefield 6")), "Battlefield 6");
    assert_eq!(get_active_window_title(Some("  News - Google Chrome ")), "News");
    assert_eq!(get_active_window_title(Some("Page \u{2013} Mozilla Firefox")), "Page");
    assert_eq!(get_active_window_title(Some("chat - Discord - Discord")), "chat");
    assert_eq!(get_active_window_title(Some("a<b>:\"/\\|?*c")), "a_b________c");
    assert_eq!(get_active_window_title(Some(" - Discord")), "- Discord");
    assert_eq!(get_active_window_title(Some("   ")), "Desktop");
    assert_eq!(get_active_window_title(None), "Desktop");
}

#[test]
fn clips_are_kept_by_game() {
    let name = "Battlefield 2026.07.26 - 19.56.14.04.DVR.mp4";
    assert_eq!(game_name(name), "Battlefield");
    assert_eq!(clip_folder("D:\\clips", name), "D:\\clips\\Battlefield");
    assert_eq!(
        clip_path("D:\\clips", name),
        "D:\\clips\\Battlefield\\Battlefield 2026.07.26 - 19.56.14.04.DVR.mp4"
    );
    let name = "Battlefield 6 2026.07.26 - 19.56.14.04.DVR.mp4";
    assert_eq!(game_name(name), "Battlefield 6");
    assert_eq!(
        clip_path("C:/Clips/", name),
        "C:/Clips/Battlefield 6\\Battlefield 6 2026.07.26 - 19.56.14.04.DVR.mp4"
    );
    assert_eq!(game_name("2048  2026.07.26 - 19.56.14.04.DVR.mp4"), "2048");
    assert_eq!(game_name(" 2026.07.26 - 19.56.14.04.DVR.mp4"), "");
    assert_eq!(game_name("Quake 3 2026.07.26 - 19.56.14.mp4"), "Quake");
    assert_eq!(game_name("2026.mp4"), "");
    assert_eq!(clip_path("D:\\clips", "2026.mp4"), "D:\\clips\\2026.mp4");
    assert_eq!(game_name("clip.mp"), "clip.mp");
}

#[test]
fn recordings_are_named_by_the_time() {
    assert_eq!(
        full_recording_name("2026.07.26 - 19.56.14.00"),
        "Desktop 2026.07.26 - 19.56.14.00.DVR.mp4"
    );
    let name = full_recording_name_now();
    let stamp = name.strip_prefix("Desktop ").unwrap().strip_suffix(".00.DVR.mp4").unwrap();
    let shape: String =
        stamp.chars().map(|c| if c.is_ascii_digit() { '0' } else { c }).collect();
    assert_eq!(shape, "0000.00.00 - 00.00.00");
    let number = |at: usize| stamp[at..at + 2].parse::<u32>().unwrap();
    assert!((1..=12).contains(&number(5)));
    assert!((1..=31).contains(&number(8)));
    assert!(number(13) <= 23 && number(16) <= 59 && number(19) <= 60);
}

#[test]
fn extensions_are_compared_in_lower_case() {
    let extensions = ["mp4", "webm", "mkv", "mov"];
    for c in '\0'..=char::MAX {
        for extension in [format!("m{}v", c), format!("m{}4", c), format!("web{}", c)] {
            let lowered = extension.to_lowercase();
            let expected = extensions.contains(&lowered.as_str());
            assert_eq!(is_video_extension(&extension), expected, "{:?}", extension);
        }
    }
}

#[test]
fn only_clips_are_listed() {
    let found = |name: &str, extension: &str, size: u64, created_at: &str| FoundFile {
        extension: extension.to_string(),
        file: ClipFile { size, ..clip(name, created_at) },
    };
    let listed = clips_list(vec![
        found("old", "mp4", 5, "2026-01-01"),
        found("empty", "mp4", 0, "2026-01-04"),
        found("text", "txt", 5, "2026-01-05"),
        found("new", "MKV", 1, "2026-01-03"),
        found("same", "mov", 1, "2026-01-03"),
    ]);
    let names: Vec<&str> = listed.iter().map(|c| c.name.as_str()).collect();
    assert_eq!(names, vec!["new", "same", "old"]);
    assert!(clips_list(vec![]).is_empty());
}
