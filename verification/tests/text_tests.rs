use epub_parser::text::{dir_prefix, is_whitespace, str_is, trim};

#[test]
fn trim_removes_surrounding_whitespace() {
    assert_eq!(trim("  hello world \n\t"), "hello world");
    assert_eq!(trim("none"), "none");
    assert_eq!(trim(""), "");
    assert_eq!(trim(" \t\r\n "), "");
}

#[test]
fn trim_removes_unicode_whitespace() {
    assert_eq!(trim("\u{3000}\u{a0}title\u{2009}\u{85}"), "title");
    assert_eq!(trim("\u{200b}x\u{200b}"), "\u{200b}x\u{200b}");
}

#[test]
fn trim_agrees_with_std() {
    for s in ["  a b  ", "\u{2028}x\u{2029}", "\u{1680}y", "z\u{202f}", "\u{205f}", "é ", " ü"] {
        assert_eq!(trim(s), s.trim());
    }
}

#[test]
fn trim_twice_is_trim_once() {
    for s in ["  a  ", "\n\u{3000}b c\u{a0}", "", "d"] {
        let once = trim(s);
        assert_eq!(trim(&once), once);
    }
}

#[test]
fn whitespace_agrees_with_std() {
    for c in ['\t', '\n', '\u{b}', '\u{c}', '\r', ' ', '\u{85}', '\u{a0}', '\u{1680}', '\u{2000}', '\u{200a}', '\u{2028}', '\u{2029}', '\u{202f}', '\u{205f}', '\u{3000}', 'a', '\u{200b}', '\u{feff}', '0'] {
        assert_eq!(is_whitespace(c), c.is_whitespace(), "{:?}", c);
    }
}

#[test]
fn str_is_compares_characters() {
    assert!(str_is("rootfile", "rootfile"));
    assert!(!str_is("rootfile", "rootfiles"));
    assert!(!str_is("Rootfile", "rootfile"));
    assert!(str_is("", ""));
    assert!(str_is("ü", "ü"));
}

#[test]
fn dir_prefix_keeps_up_to_last_slash() {
    assert_eq!(dir_prefix("OEBPS/content.opf"), "OEBPS/");
    assert_eq!(dir_prefix("a/b/c.opf"), "a/b/");
    assert_eq!(dir_prefix("content.opf"), "");
    assert_eq!(dir_prefix("/content.opf"), "/");
    assert_eq!(dir_prefix("dir/"), "dir/");
    assert_eq!(dir_prefix(""), "");
}
