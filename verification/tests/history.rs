use withefuck::history::{get_last_n_commands, parse_transcript};

fn recs(v: &[(&str, &str)]) -> Vec<(String, String)> {
    v.iter().map(|(c, o)| (c.to_string(), o.to_string())).collect()
}

#[test]
fn round_trip_on_a_synthetic_transcript() {
    let raw = "Shell log started.\ncmd\noutput line 1\noutput line 2\nShell log started.\n";
    assert_eq!(get_last_n_commands(raw, 5), recs(&[("cmd", "output line 1\noutput line 2")]));
}

#[test]
fn transcript_with_escapes_and_titles() {
    let raw = [
        "Script started on 2024-01-01\n",
        "\x1b[1m---- Shell log started. ----\x1b[0m\r\n",
        "user@host:~$ \r\n",
        "\x1b]0;ls -la ~\x07ls -la\r\n",
        "total 0\r\n",
        "-rw-r--r-- a.txt\r\n",
        "---- Shell log started. ----\r\n",
        "\x1b]0;git sttaus ~/proj\x07git sttuas\x08\x08\x08aus\r\n",
        "git: 'sttaus' is not a git command.\r\n",
        "---- Shell log started. ----\r\n",
        "wtf\r\n",
        "git status [enter/ctrl+c]\r\n",
        "---- Shell log started. ----\r\n",
        "\x1b]0;pwd ~/proj\x07pwd\r\n",
        "/home/user/proj\r\n",
        "---- Shell log started. ----\r\n",
        "wtf --logs\r\n",
        "Last 3 commands and their outputs:\r\n",
        "---- Shell log started. ----\r\n",
        "exit\r\n",
    ]
    .join("");
    let raw = raw.as_str();
    let all = recs(&[
        ("ls -la", "total 0\n-rw-r--r-- a.txt"),
        ("git sttaus", "git: 'sttaus' is not a git command.\ngit status [enter/ctrl+c]"),
        ("pwd", "/home/user/proj"),
    ]);
    assert_eq!(get_last_n_commands(raw, 10), all);
    assert_eq!(get_last_n_commands(raw, 3), all);
    assert_eq!(get_last_n_commands(raw, 2), all[1..].to_vec());
    assert_eq!(get_last_n_commands(raw, 1), all[2..].to_vec());
    assert_eq!(get_last_n_commands(raw, 0), recs(&[]));
}

#[test]
fn transcripts_without_blocks_give_no_history() {
    assert_eq!(get_last_n_commands("", 5), recs(&[]));
    assert_eq!(get_last_n_commands("ls\nout\n", 5), recs(&[]));
    assert_eq!(get_last_n_commands("Shell log started.\nls\nout\n", 5), recs(&[]));
    assert_eq!(get_last_n_commands("Shell log started.\nShell log started.\n", 5), recs(&[]));
    assert_eq!(get_last_n_commands("Shell log started.\nuser@host$\nShell log started.\n", 5), recs(&[]));
}

#[test]
fn last_block_without_closing_marker_is_not_read() {
    let raw = "Shell log started.\nls\na\nShell log started.\npwd\n/\n";
    assert_eq!(parse_transcript(raw), recs(&[("ls", "a")]));
}

#[test]
fn whole_text_reading_steps_in_when_lines_find_nothing() {
    // A bare carriage return ends no line, so read line by line the text has
    // one marker only. Cleaned as a whole, the carriage returns become line
    // feeds, and the blocks appear.
    let raw = "Shell log started.\rls\rout\rShell log started.\r";
    assert_eq!(parse_transcript(raw), recs(&[("ls", "out")]));
    assert_eq!(get_last_n_commands(raw, 1), recs(&[("ls", "out")]));
}

#[test]
fn whole_text_reading_is_not_used_when_lines_find_a_record() {
    let raw = "Shell log started.\nls\nout\nShell log started.\nx\ry\rShell log started.\rz\r";
    assert_eq!(parse_transcript(raw), recs(&[("ls", "out")]));
}

#[test]
fn records_keep_the_order_of_the_transcript() {
    let mut raw = String::new();
    let mut want = Vec::new();
    for i in 0..20 {
        raw.push_str("Shell log started.\n");
        raw.push_str(&format!("cmd{}\nout{}\n", i, i));
        want.push((format!("cmd{}", i), format!("out{}", i)));
    }
    raw.push_str("Shell log started.\n");
    assert_eq!(parse_transcript(&raw), want);
    assert_eq!(get_last_n_commands(&raw, 5), want[15..].to_vec());
    assert_eq!(get_last_n_commands(&raw, 100), want);
}
