use withefuck::hooks::{extract_blocks_by_hooks, is_hook_marker, Detection};

fn lines(v: &[&str]) -> Vec<String> {
    v.iter().map(|s| s.to_string()).collect()
}

#[test]
fn bash_markers() {
    assert!(is_hook_marker("---- Shell log started. ----", Detection::Strict));
    assert!(is_hook_marker("- Shell log started. -", Detection::Strict));
    assert!(is_hook_marker("--\t Shell log started. \t--", Detection::Strict));
    assert!(!is_hook_marker("----Shell log started. ----", Detection::Strict));
    assert!(!is_hook_marker("---- Shell log started.----", Detection::Strict));
    assert!(!is_hook_marker("---- Shell log started. ---- x", Detection::Strict));
    assert!(!is_hook_marker("x ---- Shell log started. ----", Detection::Strict));
}

#[test]
fn zsh_markers() {
    assert!(is_hook_marker("Shell log started.", Detection::Strict));
    assert!(is_hook_marker("  Shell log started.  ", Detection::Strict));
    assert!(is_hook_marker("\tShell log started.\t", Detection::Strict));
    assert!(!is_hook_marker("Shell log started", Detection::Strict));
    assert!(!is_hook_marker("shell log started.", Detection::Strict));
    assert!(!is_hook_marker("", Detection::Strict));
}

#[test]
fn fish_markers() {
    assert!(is_hook_marker("Shell log started.?", Detection::Strict));
    assert!(is_hook_marker("Shell log started. \u{e0b0}", Detection::Strict));
    assert!(is_hook_marker("  Shell log started.  >>>", Detection::Strict));
    assert!(!is_hook_marker("Shell log started. abc", Detection::Strict));
    assert!(!is_hook_marker("Shell log started. ? abc", Detection::Strict));
    assert!(!is_hook_marker("Shell log started._", Detection::Strict));
    assert!(!is_hook_marker("Shell log started.9", Detection::Strict));
}

#[test]
fn generic_markers() {
    assert!(is_hook_marker("Shell log started.", Detection::Generic));
    assert!(is_hook_marker("xx Shell log started. yy", Detection::Generic));
    assert!(is_hook_marker("[Shell log started.]", Detection::Generic));
    assert!(!is_hook_marker("Shell log started", Detection::Generic));
    assert!(!is_hook_marker("Shell  log started.", Detection::Generic));
    assert!(!is_hook_marker("", Detection::Generic));
    assert!(!is_hook_marker("xx Shell log started. yy", Detection::Strict));
}

#[test]
fn blocks_lie_strictly_between_markers() {
    let t = lines(&[
        "before",
        "Shell log started.",
        "ls",
        "a.txt",
        "---- Shell log started. ----",
        "Shell log started.",
        "pwd",
        "Shell log started. ?",
        "after",
    ]);
    let blocks = extract_blocks_by_hooks(&t);
    assert_eq!(blocks, vec![lines(&["ls", "a.txt"]), lines(&[]), lines(&["pwd"])]);
}

#[test]
fn fewer_than_two_markers_give_no_block() {
    assert!(extract_blocks_by_hooks(&lines(&[])).is_empty());
    assert!(extract_blocks_by_hooks(&lines(&["ls", "pwd"])).is_empty());
    assert!(extract_blocks_by_hooks(&lines(&["Shell log started.", "ls"])).is_empty());
    assert!(extract_blocks_by_hooks(&lines(&["ls", "x Shell log started. y"])).is_empty());
}

#[test]
fn fallback_rule_is_used_when_styles_find_fewer_than_two() {
    let t = lines(&["x Shell log started. y", "ls", "z Shell log started. w", "pwd"]);
    assert_eq!(extract_blocks_by_hooks(&t), vec![lines(&["ls"])]);
    // One marker in a shell style is not enough either.
    let t = lines(&["Shell log started.", "ls", "z Shell log started. w"]);
    assert_eq!(extract_blocks_by_hooks(&t), vec![lines(&["ls"])]);
}

#[test]
fn fallback_rule_is_not_used_when_styles_find_two() {
    let t = lines(&[
        "Shell log started.",
        "echo Shell log started. again",
        "ls",
        "Shell log started.",
    ]);
    assert_eq!(
        extract_blocks_by_hooks(&t),
        vec![lines(&["echo Shell log started. again", "ls"])]
    );
}

#[test]
fn adding_a_marker_line_does_not_lose_blocks() {
    let base = lines(&["Shell log started.", "ls", "out", "Shell log started.", "pwd"]);
    let before = extract_blocks_by_hooks(&base).len();
    for at in 0..=base.len() {
        for marker in ["Shell log started.", "--- Shell log started. ---", "Shell log started. >"] {
            let mut t = base.clone();
            t.insert(at, marker.to_string());
            assert!(extract_blocks_by_hooks(&t).len() >= before);
            assert_eq!(extract_blocks_by_hooks(&t).len(), before + 1);
        }
    }
}

#[test]
fn second_styled_marker_ends_the_fallback() {
    // Three lines hold the phrase, one of them in a shell style: the fallback
    // rule cuts two blocks. A second styled marker makes the styles decide,
    // and only one block is left.
    let base = lines(&["Shell log started.", "a Shell log started. b", "c Shell log started. d"]);
    assert_eq!(extract_blocks_by_hooks(&base).len(), 2);
    let mut t = base.clone();
    t.push("Shell log started.".to_string());
    assert_eq!(extract_blocks_by_hooks(&t).len(), 1);
}
