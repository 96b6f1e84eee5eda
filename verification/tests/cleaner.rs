use withefuck::clean::{clean_line, clean_text, strip_backspaces};
use withefuck::history::clean_lines;

#[test]
fn backspace_deletes_previous_character() {
    assert_eq!(clean_line("ab\u{0008}c"), "ac");
    assert_eq!(clean_text("ab\u{0008}c"), "ac");
    assert_eq!(strip_backspaces("ab\u{0008}c"), "ac");
}

#[test]
fn unmatched_backspaces_are_dropped() {
    assert_eq!(strip_backspaces("\u{0008}\u{0008}ab"), "ab");
    assert_eq!(strip_backspaces("a\u{0008}\u{0008}\u{0008}b"), "b");
    assert_eq!(strip_backspaces("abc\u{0008}\u{0008}\u{0008}"), "");
    assert_eq!(strip_backspaces(""), "");
    assert_eq!(clean_line("\u{0008}x"), "x");
}

#[test]
fn backspace_works_on_characters_not_bytes() {
    assert_eq!(strip_backspaces("h\u{e9}\u{0008}e"), "he");
    assert_eq!(strip_backspaces("\u{65e5}\u{672c}\u{0008}"), "\u{65e5}");
}

#[test]
fn control_sequences_are_removed() {
    assert_eq!(clean_line("\x1b[31mred\x1b[0m"), "red");
    assert_eq!(clean_line("\x1b[1;32;40mok\x1b[m"), "ok");
    assert_eq!(clean_line("a\x1b[?2004hb"), "ab");
    assert_eq!(clean_line("a\x1b[2 qb"), "ab");
    assert_eq!(clean_line("x\x1b[Ky"), "xy");
}

#[test]
fn unfinished_control_sequence_loses_only_its_escape() {
    // No final byte follows the parameters: the sequence is not one, and
    // only the escape character goes, as a control character.
    assert_eq!(clean_line("a\x1b[12"), "a[12");
    assert_eq!(clean_line("a\x1b[12\u{7f}b"), "a[12\u{7f}b");
}

#[test]
fn title_sequences_are_removed() {
    assert_eq!(clean_line("\x1b]0;my title\x07prompt"), "prompt");
    assert_eq!(clean_line("\x1b]2;other\x1b\\after"), "after");
    assert_eq!(clean_line("\x1b]7;file://host/dir\x07x"), "x");
    assert_eq!(clean_line("a\x1b]0;\x07b"), "ab");
}

#[test]
fn unterminated_title_sequence_stays_as_text() {
    // Only its escape character goes, as a control character.
    assert_eq!(clean_line("\x1b]0;never ends"), "]0;never ends");
    assert_eq!(clean_line("\x1b]0;ends on the next escape\x1b[0m"), "]0;ends on the next escape");
}

#[test]
fn short_escapes_are_removed() {
    assert_eq!(clean_line("a\x1bMb"), "ab");
    assert_eq!(clean_line("a\x1b\\b"), "ab");
    assert_eq!(clean_line("a\x1b^b"), "ab");
    assert_eq!(clean_line("a\x1b_b"), "ab");
    assert_eq!(clean_line("a\x1b@b"), "ab");
    assert_eq!(clean_line("a\x1bZb"), "ab");
}

#[test]
fn two_byte_escapes_are_removed() {
    assert_eq!(clean_line("a\x1b(Bb"), "ab");
    assert_eq!(clean_line("a\x1b Fb"), "ab");
    // A digit is no final byte.
    assert_eq!(clean_line("a\x1b)0b"), "a)0b");
    assert_eq!(clean_line("a\x1b#8b"), "a#8b");
    assert_eq!(clean_line("a\x1b%Gb"), "ab");
}

#[test]
fn mode_switch_escapes_are_removed() {
    assert_eq!(clean_line("a\x1b=b"), "ab");
    assert_eq!(clean_line("a\x1b>b"), "ab");
    assert_eq!(clean_line("a\x1b<b"), "ab");
}

#[test]
fn kinds_are_removed_one_after_the_other() {
    // Taking the control sequence out brings `ESC` and `]0;t BEL` together,
    // which the next step then removes as a title sequence.
    assert_eq!(clean_line("\x1b\x1b[0m]0;t\x07x"), "x");
    // A later kind does not give an earlier one a second chance.
    assert_eq!(clean_line("\x1b\x1b=[0mx"), "[0mx");
}

#[test]
fn carriage_returns_become_line_feeds() {
    assert_eq!(clean_text("a\r\nb"), "a\nb");
    assert_eq!(clean_text("a\rb"), "a\nb");
    assert_eq!(clean_text("a\r\r\nb"), "a\n\nb");
    assert_eq!(clean_line("a\rb"), "a\nb");
    assert_eq!(clean_line("a\r\nb"), "a\nb");
}

#[test]
fn return_glyph_is_removed() {
    assert_eq!(clean_line("ls\u{23ce}"), "ls");
    assert_eq!(clean_text("\u{23ce}ls \u{23ce}-la"), "ls -la");
}

#[test]
fn glyph_goes_before_backspaces_are_applied() {
    // The backspace deletes the `b`, not the glyph that stood before it.
    assert_eq!(clean_line("ab\u{23ce}\u{0008}c"), "ac");
}

#[test]
fn backspaces_are_applied_before_control_characters_go() {
    // The backspace deletes the bell, so the `a` stays.
    assert_eq!(clean_line("a\x07\u{0008}b"), "ab");
}

#[test]
fn remaining_control_characters_are_removed() {
    assert_eq!(clean_line("a\x00b\x01c\x07d\x0be\x0cf\x0eg\x1fh"), "abcdefgh");
    assert_eq!(clean_line("a\x1bb"), "ab");
}

#[test]
fn tab_line_feed_and_delete_are_kept() {
    assert_eq!(clean_line("a\tb"), "a\tb");
    assert_eq!(clean_line("a\nb"), "a\nb");
    assert_eq!(clean_line("a\u{7f}b"), "a\u{7f}b");
}

#[test]
fn text_is_trimmed_and_line_is_not() {
    assert_eq!(clean_text("  \x1b[1m hello \x1b[0m \n"), "hello");
    assert_eq!(clean_line("  \x1b[1m hello \x1b[0m "), "   hello  ");
    assert_eq!(clean_text(" \u{a0}\u{3000}x\u{2003}\t"), "x");
    assert_eq!(clean_text("   "), "");
    assert_eq!(clean_text(""), "");
    assert_eq!(clean_line(""), "");
}

#[test]
fn cleaning_twice_changes_nothing() {
    let samples = [
        "plain text",
        "\x1b[31mred\x1b[0m and \x1b]0;title\x07 more",
        "  padded \r\n lines \r here  ",
        "ab\u{0008}\u{0008}\u{0008}cd\u{23ce}",
        "\x1b\x1b[0m]0;t\x07x\x1b(B\x1b=\x1b\\",
        "\x1b]0;never ends",
        "a\x1b[12",
        "\u{0008}\x1b",
        "",
    ];
    for s in samples {
        let once = clean_line(s);
        assert_eq!(clean_line(&once), once, "line {:?}", s);
        let once = clean_text(s);
        assert_eq!(clean_text(&once), once, "text {:?}", s);
    }
}

#[test]
fn cleaned_lines_align_with_raw_lines() {
    let raw: Vec<String> = vec![
        "\x1b[1mfirst\x1b[0m".to_string(),
        "".to_string(),
        "\x1b]0;t\x07".to_string(),
        "  kept as is  ".to_string(),
    ];
    let cleaned = clean_lines(&raw);
    assert_eq!(cleaned.len(), raw.len());
    assert_eq!(cleaned, vec!["first", "", "", "  kept as is  "]);
    for i in 0..raw.len() {
        assert_eq!(cleaned[i], clean_line(&raw[i]));
    }
    assert_eq!(clean_lines(&[]), Vec::<String>::new());
}
