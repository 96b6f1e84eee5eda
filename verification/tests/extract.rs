use withefuck::extract::{block_to_cmd_out, block_to_record, cmd_from_title};

fn lines(v: &[&str]) -> Vec<String> {
    v.iter().map(|s| s.to_string()).collect()
}

fn pair(c: &str, o: &str) -> Option<(String, String)> {
    Some((c.to_string(), o.to_string()))
}

#[test]
fn first_plain_line_is_the_command() {
    assert_eq!(
        block_to_cmd_out(&lines(&["cmd", "output line 1", "output line 2"])),
        pair("cmd", "output line 1\noutput line 2")
    );
    assert_eq!(block_to_cmd_out(&lines(&["ls"])), pair("ls", ""));
}

#[test]
fn blank_noise_and_prompt_lines_are_skipped() {
    assert_eq!(
        block_to_cmd_out(&lines(&["", "   ", "\u{23ce}", " \u{23ce} ", "user@host:~$", "ls -la", "f1"])),
        pair("ls -la", "f1")
    );
    assert_eq!(block_to_cmd_out(&lines(&["root@box:/# ", "whoami", "root"])), pair("whoami", "root"));
}

#[test]
fn prompt_needs_both_the_at_sign_and_the_ending() {
    assert_eq!(block_to_cmd_out(&lines(&["echo $", "x"])), pair("echo $", "x"));
    assert_eq!(block_to_cmd_out(&lines(&["mail a@b.c", "x"])), pair("mail a@b.c", "x"));
    assert_eq!(block_to_cmd_out(&lines(&["a@b $", "x"])), pair("x", ""));
}

#[test]
fn single_letter_line_is_a_command() {
    assert_eq!(block_to_cmd_out(&lines(&["w", "up 3 days"])), pair("w", "up 3 days"));
}

#[test]
fn command_keeps_its_indentation() {
    assert_eq!(block_to_cmd_out(&lines(&["  ls  ", " out "])), pair("  ls  ", "out"));
}

#[test]
fn block_without_command_gives_nothing() {
    assert_eq!(block_to_cmd_out(&lines(&[])), None);
    assert_eq!(block_to_cmd_out(&lines(&["", "  "])), None);
    assert_eq!(block_to_cmd_out(&lines(&["user@host$"])), None);
    assert_eq!(block_to_cmd_out(&lines(&["", "user@host # ", "\u{23ce}"])), None);
}

#[test]
fn next_line_that_invokes_the_tool_joins_the_command() {
    assert_eq!(
        block_to_cmd_out(&lines(&["git sttaus", "wtf", "git status"])),
        pair("git sttaus\nwtf", "git status")
    );
    assert_eq!(
        block_to_cmd_out(&lines(&["> theme line", "  WTF  now", "out"])),
        pair("> theme line\n  WTF  now", "out")
    );
    assert_eq!(block_to_cmd_out(&lines(&["a", "x; wtf --logs"])), pair("a\nx; wtf --logs", ""));
}

#[test]
fn informational_flags_stop_the_joining() {
    for flag in ["--help", "-h", "-v", "-V", "--version", "--config", "--update", "--uninstall"] {
        let second = format!("wtf {}", flag);
        assert_eq!(
            block_to_cmd_out(&lines(&["ls", &second, "out"])),
            Some(("ls".to_string(), format!("{}\nout", second))),
            "flag {}",
            flag
        );
    }
    assert_eq!(block_to_cmd_out(&lines(&["ls", "wtf\t \t--help", "o"])), pair("ls", "wtf\t \t--help\no"));
    assert_eq!(block_to_cmd_out(&lines(&["ls", "wtf -hx", "o"])), pair("ls", "wtf -hx\no"));
    assert_eq!(block_to_cmd_out(&lines(&["ls", "wtf --HELP", "o"])), pair("ls", "wtf --HELP\no"));
}

#[test]
fn tool_name_must_be_a_word() {
    assert_eq!(block_to_cmd_out(&lines(&["ls", "wtfx", "o"])), pair("ls", "wtfx\no"));
    assert_eq!(block_to_cmd_out(&lines(&["ls", "xwtf", "o"])), pair("ls", "xwtf\no"));
    assert_eq!(block_to_cmd_out(&lines(&["ls", "a_wtf", "o"])), pair("ls", "a_wtf\no"));
    assert_eq!(block_to_cmd_out(&lines(&["ls", "wtf9", "o"])), pair("ls", "wtf9\no"));
    assert_eq!(block_to_cmd_out(&lines(&["ls", "./wtf.", "o"])), pair("ls\n./wtf.", "o"));
    assert_eq!(block_to_cmd_out(&lines(&["ls", "\u{e9}wtf\u{e9}", "o"])), pair("ls\n\u{e9}wtf\u{e9}", "o"));
}

#[test]
fn first_word_occurrence_decides() {
    // The first whole word is followed by a flag; a later one is not looked at.
    assert_eq!(block_to_cmd_out(&lines(&["ls", "wtf --help; wtf", "o"])), pair("ls", "wtf --help; wtf\no"));
    // An occurrence inside a longer word is passed over.
    assert_eq!(block_to_cmd_out(&lines(&["ls", "wtfx wtf", "o"])), pair("ls\nwtfx wtf", "o"));
}

#[test]
fn only_the_line_after_the_command_can_join() {
    assert_eq!(block_to_cmd_out(&lines(&["ls", "out", "wtf"])), pair("ls", "out\nwtf"));
    assert_eq!(block_to_cmd_out(&lines(&["wtf", "out"])), pair("wtf", "out"));
}

#[test]
fn title_command_drops_tag_and_directory() {
    assert_eq!(cmd_from_title("[host] git status ~/proj"), "git status");
    assert_eq!(cmd_from_title("[host]   ls   -la   /tmp"), "ls -la");
    assert_eq!(cmd_from_title("vim notes.txt ~"), "vim notes.txt");
    assert_eq!(cmd_from_title("  make   test  "), "make test");
    assert_eq!(cmd_from_title("[a b c]\tcargo build"), "cargo build");
}

#[test]
fn title_command_edge_cases() {
    assert_eq!(cmd_from_title(""), "");
    assert_eq!(cmd_from_title("   "), "");
    assert_eq!(cmd_from_title("~"), "");
    assert_eq!(cmd_from_title("/usr/bin/top"), "");
    assert_eq!(cmd_from_title("~/bin/run"), "");
    assert_eq!(cmd_from_title("[host] ~"), "");
    // Only the last token is looked at.
    assert_eq!(cmd_from_title("/bin/ls -la"), "/bin/ls -la");
    assert_eq!(cmd_from_title("cd /tmp /var"), "cd /tmp");
    // No blank behind the bracket: it is no tag.
    assert_eq!(cmd_from_title("[host]ls"), "[host]ls");
    assert_eq!(cmd_from_title("[host] "), "[host]");
    assert_eq!(cmd_from_title("[unclosed ls"), "[unclosed ls");
    assert_eq!(cmd_from_title("[] x"), "x");
    assert_eq!(cmd_from_title("[a]] x"), "[a]] x");
}

#[test]
fn title_overrides_the_command_of_the_lines() {
    let clean = lines(&["ls -la", "On branch main", "nothing to commit"]);
    let raw = "ls -la\n\x1b]2;git status\x07On branch main\nnothing to commit";
    assert_eq!(
        block_to_record(&clean, raw),
        pair("git status", "On branch main\nnothing to commit")
    );
}

#[test]
fn last_title_wins() {
    let clean = lines(&["x", "y"]);
    let raw = "\x1b]0;first cmd\x07x\n\x1b]0;[h] second cmd ~/d\x1b\\y";
    assert_eq!(block_to_record(&clean, raw), pair("second cmd", "y"));
}

#[test]
fn only_titles_of_kind_0_and_2_count() {
    let clean = lines(&["make", "done"]);
    assert_eq!(block_to_record(&clean, "\x1b]1;icon\x07make\ndone"), pair("make", "done"));
    assert_eq!(block_to_record(&clean, "\x1b]7;file:///x\x07make\ndone"), pair("make", "done"));
    assert_eq!(block_to_record(&clean, "\x1b]0;never closed\nmake\ndone"), pair("make", "done"));
    assert_eq!(block_to_record(&clean, "\x1b]0;t\x07make\ndone"), pair("t", "make\ndone"));
    assert_eq!(block_to_record(&clean, "\x1b]2;t\x1b\\make\ndone"), pair("t", "make\ndone"));
}

#[test]
fn output_behind_title_drops_echoes_and_blank_lines() {
    let clean = lines(&["git status", "git st", "git status", "", "clean tree"]);
    let raw = "\x1b]0;git status ~/p\x07\x1b[1mgit st\ngit status\n  \n\x1b[32mclean tree\x1b[0m \n";
    assert_eq!(block_to_record(&clean, raw), pair("git status", "clean tree"));
    // A line that goes on behind the command is no echo.
    let clean = lines(&["ls", "ls -la"]);
    assert_eq!(block_to_record(&clean, "\x1b]0;ls\x07l\nls\nls -la\n"), pair("ls", "ls -la"));
}

#[test]
fn empty_title_keeps_the_command_but_not_the_output() {
    let clean = lines(&["ls -la", "f1", "f2"]);
    let raw = "ls -la\nf1\n\x1b]0;~/dir\x07f2";
    assert_eq!(block_to_record(&clean, raw), pair("ls -la", "f2"));
    let raw = "ls -la\nf1\nf2\x1b]0;\x07";
    assert_eq!(block_to_record(&clean, raw), pair("ls -la", ""));
}

#[test]
fn title_alone_makes_no_record() {
    assert_eq!(block_to_record(&lines(&[]), "\x1b]0;git status\x07"), None);
    assert_eq!(block_to_record(&lines(&["user@host$"]), "\x1b]0;git status\x07user@host$"), None);
    assert_eq!(block_to_record(&lines(&["ls", "o"]), "ls\no"), pair("ls", "o"));
}
