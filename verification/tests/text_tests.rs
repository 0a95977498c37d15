use save_swap::text::chars_of;
use save_swap::text::contains_text;
use save_swap::text::eq_ignore_ascii_case;
use save_swap::text::file_name_of;
use save_swap::text::is_numeric_name;
use save_swap::text::is_white_space;
use save_swap::text::join_text;
use save_swap::text::normalize_path;
use save_swap::text::same_text;
use save_swap::text::slashes_forward;
use save_swap::text::text_before_eq;
use save_swap::text::trim;
use save_swap::text::unescape_backslashes;

fn chars(s: &str) -> Vec<char> {
    s.chars().collect()
}

fn text(v: &Vec<char>) -> String {
    v.iter().collect()
}

#[test]
fn chars_of_gives_each_character() {
    assert_eq!(chars_of("a\u{e9}\u{1F600}z"), vec!['a', '\u{e9}', '\u{1F600}', 'z']);
    assert_eq!(chars_of(""), Vec::<char>::new());
}

#[test]
fn normalize_path_turns_backslashes() {
    assert_eq!(normalize_path("C:\\Program Files\\Steam"), "C:/Program Files/Steam");
    assert_eq!(normalize_path("/home/u/.steam/steam"), "/home/u/.steam/steam");
    assert_eq!(normalize_path("a\\b/c\\\\d"), "a/b/c//d");
    assert_eq!(normalize_path(""), "");
}

#[test]
fn slashes_forward_keeps_length() {
    assert_eq!(text(&slashes_forward("bin\\game.exe")), "bin/game.exe");
}

#[test]
fn numeric_names_are_digits_only() {
    assert!(is_numeric_name("0123456789"));
    assert!(is_numeric_name("7"));
    assert!(is_numeric_name(""));
    assert!(!is_numeric_name("12a"));
    assert!(!is_numeric_name("dunabackups"));
    assert!(!is_numeric_name("-1"));
    assert!(!is_numeric_name("\u{0661}\u{0662}"));
    assert!(!is_numeric_name("1 2"));
}

#[test]
fn file_name_is_last_segment() {
    assert_eq!(text(&file_name_of(&chars("bin/win64/game.exe"))), "game.exe");
    assert_eq!(text(&file_name_of(&chars("game.exe"))), "game.exe");
    assert_eq!(text(&file_name_of(&chars("bin/"))), "");
    assert_eq!(text(&file_name_of(&chars(""))), "");
    assert_eq!(text(&file_name_of(&chars("/"))), "");
    assert_eq!(text(&file_name_of(&chars("a//b"))), "b");
}

#[test]
fn file_name_agrees_with_rsplit() {
    for s in ["a/b/c", "", "/", "//", "x", "x/", "/x", "dir\\file", "a/b\\c/d.e"] {
        let expected = s.rsplit('/').next().unwrap_or("");
        assert_eq!(text(&file_name_of(&chars(s))), expected);
    }
}

#[test]
fn white_space_agrees_with_the_standard_library() {
    let mut n: u32 = 0;
    while n <= 0x10FFFF {
        if let Some(c) = char::from_u32(n) {
            assert_eq!(is_white_space(c), c.is_whitespace(), "code point {:#x}", n);
        }
        n += 1;
    }
}

#[test]
fn trim_agrees_with_the_standard_library() {
    for s in [
        "",
        " ",
        "  \t\n",
        "name",
        "  name",
        "name  ",
        " \u{a0}two words\u{3000}\r\n",
        "\u{2003}x\u{2003}",
        "a b",
        "\u{180e}x",
        "\u{200b}x\u{200b}",
    ] {
        assert_eq!(text(&trim(&chars(s))), s.trim(), "input {:?}", s);
    }
}

#[test]
fn case_of_ascii_letters_is_set_aside() {
    assert!(eq_ignore_ascii_case("RemoteCache.VDF", "remotecache.vdf"));
    assert!(eq_ignore_ascii_case("", ""));
    assert!(eq_ignore_ascii_case("Game.EXE", "game.exe"));
    assert!(!eq_ignore_ascii_case("game.exe", "game.ex"));
    assert!(!eq_ignore_ascii_case("game", "gamf"));
    assert!(!eq_ignore_ascii_case("\u{c9}", "\u{e9}"));
    assert!(!eq_ignore_ascii_case("@", "`"));
    assert!(!eq_ignore_ascii_case("[", "{"));
}

#[test]
fn case_comparison_agrees_with_the_standard_library() {
    let samples = ["", "a", "A", "z", "Z", "@", "`", "[", "{", "ab", "AB", "aB", "\u{e9}", "\u{c9}", "k", "\u{212a}"];
    for a in samples {
        for b in samples {
            assert_eq!(eq_ignore_ascii_case(a, b), a.eq_ignore_ascii_case(b), "{:?} {:?}", a, b);
        }
    }
}

#[test]
fn doubled_backslashes_become_single() {
    assert_eq!(unescape_backslashes("D:\\\\Games\\\\Lib"), "D:\\Games\\Lib");
    assert_eq!(unescape_backslashes("\\\\\\"), "\\\\");
    assert_eq!(unescape_backslashes("\\\\\\\\"), "\\\\");
    assert_eq!(unescape_backslashes("/mnt/games"), "/mnt/games");
    assert_eq!(unescape_backslashes("a\\b"), "a\\b");
    assert_eq!(unescape_backslashes(""), "");
}

#[test]
fn unescape_agrees_with_replace() {
    for s in ["", "\\", "\\\\", "\\\\\\", "a\\\\b\\c\\\\\\\\d", "x\\\\", "\\\\x"] {
        assert_eq!(unescape_backslashes(s), s.replace("\\\\", "\\"), "input {:?}", s);
    }
}

#[test]
fn text_order_agrees_with_string_order() {
    let samples = ["", "a", "ab", "b", "B", "abc", "abd", "z", "\u{e9}", "\u{1F600}", "\u{ffff}", "a\u{0}"];
    for a in samples {
        for b in samples {
            assert_eq!(text_before_eq(&chars(a), &chars(b)), a <= b, "{:?} {:?}", a, b);
        }
    }
}

#[test]
fn same_text_and_contains_text() {
    assert!(same_text("abc", "abc"));
    assert!(!same_text("abc", "abd"));
    assert!(!same_text("abc", "ab"));
    let list = vec!["one".to_string(), "two".to_string()];
    assert!(contains_text(&list, "two"));
    assert!(!contains_text(&list, "Two"));
    assert!(!contains_text(&Vec::new(), ""));
}

#[test]
fn join_text_appends() {
    assert_eq!(join_text("Backup - ", "Alice"), "Backup - Alice");
    assert_eq!(join_text("", ""), "");
}
