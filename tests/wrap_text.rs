use tabled::{wrap_spans, wrap_text};
use unicode_width::UnicodeWidthChar;

fn split(text: &str, width: usize) -> String {
    wrap_text(text, width, false)
}

fn split_keeping_words(text: &str, width: usize) -> String {
    wrap_text(text, width, true)
}

fn chunks(text: &str, width: usize) -> Vec<String> {
    let out = wrap_text(text, width, false);
    if out.is_empty() {
        return Vec::new();
    }
    out.split('\n').map(|s| s.to_string()).collect()
}

fn plain(text: &str) -> Vec<(String, String, String)> {
    vec![(text.to_string(), String::new(), String::new())]
}

fn chunks_affixed(text: &str, width: usize, prefix: &str, suffix: &str) -> Vec<String> {
    let out = wrap_spans(&plain(text), width, false, prefix, suffix);
    if out.is_empty() {
        return Vec::new();
    }
    out.split('\n').map(|s| s.to_string()).collect()
}

fn columns(line: &str) -> usize {
    line.chars().map(|c| c.width().unwrap_or(0)).sum()
}

#[test]
fn split_test() {
    assert_eq!(split("123456", 0), "");

    assert_eq!(split("123456", 1), "1\n2\n3\n4\n5\n6");
    assert_eq!(split("123456", 2), "12\n34\n56");
    assert_eq!(split("12345", 2), "12\n34\n5");
    assert_eq!(split("123456", 6), "123456");
    assert_eq!(split("123456", 10), "123456");

    assert_eq!(split("😳😳😳😳😳", 1), "�\n�\n�\n�\n�");
    assert_eq!(split("😳😳😳😳😳", 2), "😳\n😳\n😳\n😳\n😳");
    assert_eq!(split("😳😳😳😳😳", 3), "😳�\n😳�\n😳");
    assert_eq!(split("😳😳😳😳😳", 6), "😳😳😳\n😳😳");
    assert_eq!(split("😳😳😳😳😳", 20), "😳😳😳😳😳");

    assert_eq!(split("😳123😳", 1), "�\n1\n2\n3\n�");
    assert_eq!(split("😳12😳3", 1), "�\n1\n2\n�\n3");
}

#[test]
fn chunks_test() {
    assert_eq!(chunks("123456", 0), [""; 0]);

    assert_eq!(chunks("123456", 1), ["1", "2", "3", "4", "5", "6"]);
    assert_eq!(chunks("123456", 2), ["12", "34", "56"]);
    assert_eq!(chunks("12345", 2), ["12", "34", "5"]);

    assert_eq!(chunks("😳😳😳😳😳", 1), ["�", "�", "�", "�", "�"]);
    assert_eq!(chunks("😳😳😳😳😳", 2), ["😳", "😳", "😳", "😳", "😳"]);
    assert_eq!(chunks("😳😳😳😳😳", 3), ["😳�", "😳�", "😳"]);
}

#[test]
fn wrap_split_by_line_keeping_words_test() {
    assert_eq!(split_keeping_words("123456", 1), "1\n2\n3\n4\n5\n6");
    assert_eq!(split_keeping_words("123456", 2), "12\n34\n56");
    assert_eq!(split_keeping_words("12345", 2), "12\n34\n5 ");

    assert_eq!(split_keeping_words("😳😳😳😳😳", 1), "�\n�\n�\n�\n�");

    assert_eq!(split_keeping_words("111 234 1", 4), "111 \n234 \n1   ");
}

#[test]
fn wrap_split_keeping_words_4_test() {
    assert_eq!(split_keeping_words("12345678", 3), "123\n456\n78 ");
    assert_eq!(split_keeping_words("12345678", 2), "12\n34\n56\n78");
}

#[test]
fn chunks_test_with_prefix_and_suffix() {
    assert_eq!(chunks_affixed("123456", 0, "^", "$"), ["^$"; 0]);

    assert_eq!(
        chunks_affixed("123456", 1, "^", "$"),
        ["^1$", "^2$", "^3$", "^4$", "^5$", "^6$"]
    );
    assert_eq!(chunks_affixed("123456", 2, "^", "$"), ["^12$", "^34$", "^56$"]);
    assert_eq!(chunks_affixed("12345", 2, "^", "$"), ["^12$", "^34$", "^5$"]);

    assert_eq!(
        chunks_affixed("😳😳😳😳😳", 1, "^", "$"),
        ["^�$", "^�$", "^�$", "^�$", "^�$"]
    );
    assert_eq!(
        chunks_affixed("😳😳😳😳😳", 2, "^", "$"),
        ["^😳$", "^😳$", "^😳$", "^😳$", "^😳$"]
    );
    assert_eq!(
        chunks_affixed("😳😳😳😳😳", 3, "^", "$"),
        ["^😳�$", "^😳�$", "^😳$"]
    );
}

#[test]
fn plain_mode_cuts_every_width_columns() {
    assert_eq!(wrap_text("123456", 2, false), "12\n34\n56");
}

#[test]
fn double_width_glyphs_become_markers_at_width_one() {
    let out = wrap_text("😳😳😳😳😳", 1, false);
    assert_eq!(out, "\u{FFFD}\n\u{FFFD}\n\u{FFFD}\n\u{FFFD}\n\u{FFFD}");
    assert_eq!(out.split('\n').count(), 5);
}

#[test]
fn keep_words_pads_every_line() {
    assert_eq!(wrap_text("111 234 1", 4, true), "111 \n234 \n1   ");
}

#[test]
fn zero_width_yields_nothing() {
    assert_eq!(wrap_text("some text", 0, false), "");
    assert_eq!(wrap_text("some text", 0, true), "");
    assert_eq!(wrap_text("", 0, true), "");
}

#[test]
fn empty_text_yields_nothing() {
    assert_eq!(wrap_text("", 3, false), "");
    assert_eq!(wrap_text("", 3, true), "");
}

#[test]
fn lines_stay_within_width() {
    let texts = ["Hello World", "😳a😳bb😳ccc", "a  b   c", "ｗｉｄｅ text ok", "x"];
    for text in texts {
        for width in 1..8 {
            for keep in [false, true] {
                let out = wrap_text(text, width, keep);
                for line in out.split('\n') {
                    assert!(columns(line) <= width, "{:?} {} {}", text, width, keep);
                }
            }
        }
    }
}

#[test]
fn keep_words_lines_are_rectangular() {
    let texts = ["Hello World", "😳a😳bb😳ccc", "a  b   c", "ｗｉｄｅ text ok", "x"];
    for text in texts {
        for width in 1..8 {
            let out = wrap_text(text, width, true);
            for line in out.split('\n') {
                assert_eq!(columns(line), width, "{:?} {}", text, width);
            }
        }
    }
}

#[test]
fn keep_words_moves_a_word_that_does_not_fit() {
    assert_eq!(wrap_text("Hello World", 7, true), "Hello  \nWorld  ");
    assert_eq!(wrap_text("ab cdefgh", 4, true), "ab c\ndefg\nh   ");
}

#[test]
fn keep_words_drops_the_space_at_a_full_line() {
    assert_eq!(wrap_text("abcd ef", 4, true), "abcd\nef  ");
}

#[test]
fn rewrapping_keeps_the_lines() {
    let once = wrap_text("123456789", 2, false);
    let twice = wrap_text(&once, 2, false);
    let a: Vec<&str> = once.split('\n').filter(|l| !l.is_empty()).collect();
    let b: Vec<&str> = twice.split('\n').filter(|l| !l.is_empty()).collect();
    assert_eq!(a, b);
    assert_eq!(twice, "12\n\n34\n\n56\n\n78\n\n9");
}

#[test]
fn styled_text_is_closed_and_reopened_at_breaks() {
    let text = "\u{1b}[31mabcd\u{1b}[0m";
    assert_eq!(
        wrap_text(text, 2, false),
        "\u{1b}[31mab\u{1b}[39m\n\u{1b}[31mcd\u{1b}[39m"
    );
}

#[test]
fn styled_chunks_break_on_span_boundary() {
    let text = "\u{1b}[30mDebian\u{1b}[0m\u{1b}[31mDebian\u{1b}[0m\u{1b}[32mDebian\u{1b}[0m\u{1b}[33mDebian\u{1b}[0m\u{1b}[34mDebian\u{1b}[0m\u{1b}[35mDebian\u{1b}[0m\u{1b}[36mDebian\u{1b}[0m\u{1b}[37mDebian\u{1b}[0m\u{1b}[40mDebian\u{1b}[0m\u{1b}[41mDebian\u{1b}[0m\u{1b}[42mDebian\u{1b}[0m\u{1b}[43mDebian\u{1b}[0m\u{1b}[44mDebian\u{1b}[0m";
    let out = wrap_text(text, 30, false);
    let lines: Vec<&str> = out.split('\n').collect();
    assert_eq!(
        lines,
        [
            "\u{1b}[30mDebian\u{1b}[39m\u{1b}[31mDebian\u{1b}[39m\u{1b}[32mDebian\u{1b}[39m\u{1b}[33mDebian\u{1b}[39m\u{1b}[34mDebian\u{1b}[39m",
            "\u{1b}[35mDebian\u{1b}[39m\u{1b}[36mDebian\u{1b}[39m\u{1b}[37mDebian\u{1b}[39m\u{1b}[40mDebian\u{1b}[49m\u{1b}[41mDebian\u{1b}[49m",
            "\u{1b}[42mDebian\u{1b}[49m\u{1b}[43mDebian\u{1b}[49m\u{1b}[44mDebian\u{1b}[49m"
        ]
    );
}

#[test]
fn spans_share_a_line_with_one_style_change() {
    let spans = vec![
        ("ab".to_string(), "<".to_string(), ">".to_string()),
        ("cd".to_string(), "[".to_string(), "]".to_string()),
    ];
    assert_eq!(wrap_spans(&spans, 3, false, "", ""), "<ab>[c]\n[d]");
    assert_eq!(wrap_spans(&spans, 3, true, "^", "$"), "^<ab>[c]$\n^[d]  $");
}

#[test]
fn keep_words_with_prefix_and_suffix() {
    assert_eq!(
        wrap_spans(&plain("12345"), 2, true, "^", "$"),
        "^12$\n^34$\n^5 $"
    );
    assert_eq!(
        wrap_spans(&plain("123456"), 1, true, "^", "$"),
        "^1$\n^2$\n^3$\n^4$\n^5$\n^6$"
    );
}

#[test]
fn hyperlink_is_put_around_every_line() {
    let text = "\u{1b}]8;;http://a.b\u{1b}\\link\u{1b}]8;;\u{1b}\\";
    assert_eq!(
        wrap_text(text, 2, false),
        "\u{1b}]8;;http://a.b\u{1b}\\li\u{1b}]8;;\u{1b}\\\n\u{1b}]8;;http://a.b\u{1b}\\nk\u{1b}]8;;\u{1b}\\"
    );
}
