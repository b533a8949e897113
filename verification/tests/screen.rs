use xpm::screen::{apply_terminal_text, keep_lines, strip_ansi};

#[test]
fn colours_are_stripped() {
    assert_eq!(strip_ansi("\u{1b}[1;32mok\u{1b}[0m done"), "ok done");
    assert_eq!(strip_ansi("plain"), "plain");
}

#[test]
fn operating_system_commands_are_stripped() {
    assert_eq!(strip_ansi("\u{1b}]0;title\u{7}text"), "text");
    assert_eq!(strip_ansi("\u{1b}]0;title\u{1b}\\text"), "text");
}

#[test]
fn stripped_text_has_no_escape() {
    for s in ["\u{1b}", "\u{1b}[", "\u{1b}[31", "a\u{1b}(Bb", "\u{1b}\u{1b}[0m"] {
        assert!(!strip_ansi(s).contains('\u{1b}'), "{:?}", s);
    }
}

#[test]
fn carriage_returns_overwrite_the_line() {
    assert_eq!(apply_terminal_text("", "10%\r20%\r30%\ndone\n"), "30%\ndone\n");
    assert_eq!(apply_terminal_text("first\nsec", "ond\n"), "first\nsecond\n");
    assert_eq!(apply_terminal_text("abc", "\rx"), "x");
}

#[test]
fn writing_in_pieces_is_writing_at_once() {
    let text = "one\rtwo\nthree\rfour\nfive";
    for k in 0..text.len() {
        let first = apply_terminal_text("", &text[..k]);
        let both = apply_terminal_text(&first, &text[k..]);
        if !text[..k].ends_with('\r') {
            assert_eq!(both, apply_terminal_text("", text), "{}", k);
        }
    }
}

#[test]
fn the_last_lines_are_kept() {
    assert_eq!(keep_lines("a\nb\nc", 2), "b\nc");
    assert_eq!(keep_lines("a\nb\nc", 3), "a\nb\nc");
    assert_eq!(keep_lines("a\nb\n", 1), "");
    assert_eq!(keep_lines("ä\nö", 1), "ö");
}

#[test]
fn a_progress_bar_is_shown_once() {
    let drawn = apply_terminal_text("done\n#", "##   20%\r####  40%\r##### 50%");
    assert_eq!(drawn, "done\n##### 50%");
    assert_eq!(apply_terminal_text("", "a\r\nb"), "a\nb");
}
