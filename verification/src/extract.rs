//! The command and output extractor: turns one block of a transcript into a
//! `(command, output)` record, by the lines of the block and, where the block
//! holds one, by its last title sequence.

use crate::clean::{clean_chars, cleaned};
use crate::text::{
    append_chars, ascii_lower, blank, char_lines, copy_range, from_chars, has_at, has_char,
    is_blank, is_whitespace, is_word_char, join, join_range, lemma_run_end, lines_after,
    lines_from, matches_at, run_end, scan_run, split_tokens, texts, to_ascii_lower, to_chars,
    tokens, trim, trim_chars, whitespace, word_char, CharClass, BEL, ESC, RETURN_GLYPH,
};
use vstd::prelude::*;

verus! {

/// The name under which this tool is invoked.
pub open spec fn tool_name() -> Seq<char> {
    "wtf"@
}

/// The flags after which an invocation of the tool only informs: a line that
/// holds the tool's name followed by one of them is no continuation of a
/// command.
pub open spec fn informational_flags() -> Seq<Seq<char>> {
    seq![
        "--help"@,
        "-h"@,
        "-v"@,
        "-V"@,
        "--version"@,
        "--config"@,
        "--update"@,
        "--uninstall"@,
    ]
}

/// The informational flags, as characters.
pub fn tool_flags() -> (flags: Vec<Vec<char>>)
    ensures
        texts(flags@) == informational_flags(),
{
    let mut flags: Vec<Vec<char>> = Vec::new();
    flags.push(to_chars("--help"));
    flags.push(to_chars("-h"));
    flags.push(to_chars("-v"));
    flags.push(to_chars("-V"));
    flags.push(to_chars("--version"));
    flags.push(to_chars("--config"));
    flags.push(to_chars("--update"));
    flags.push(to_chars("--uninstall"));
    assert(texts(flags@) =~= informational_flags());
    flags
}

/// Whether the line is noise: nothing on it but white space and return
/// glyphs.
pub open spec fn is_noise(l: Seq<char>) -> bool {
    forall|i: int| 0 <= i < l.len() ==> is_whitespace(#[trigger] l[i]) || l[i] == RETURN_GLYPH
}

/// Whether the line looks like a shell prompt: it holds an `@` and, white
/// space at its end aside, ends with `#` or `$`.
pub open spec fn is_prompt_like(l: Seq<char>) -> bool {
    let s = trim(l);
    s.contains('@') && (s.last() == '#' || s.last() == '$')
}

/// Whether the line can be the command of its block: it is not blank, not
/// noise and not prompt-like.
pub open spec fn is_command_line(l: Seq<char>) -> bool {
    !is_blank(l) && !is_noise(l) && !is_prompt_like(l)
}

/// The index of the first line from `i` on that can be the command of the
/// block; the number of lines where there is none.
pub open spec fn command_index(block: Seq<Seq<char>>, i: int) -> int
    decreases block.len() - i,
{
    if i < 0 || i >= block.len() {
        block.len() as int
    } else if is_command_line(block[i]) {
        i
    } else {
        command_index(block, i + 1)
    }
}

/// Whether the word `w` stands in `s` at position `i`, with no word character
/// directly before or behind it.
pub open spec fn word_at(s: Seq<char>, i: int, w: Seq<char>) -> bool {
    &&& has_at(s, i, w)
    &&& i == 0 || !is_word_char(s[i - 1])
    &&& i + w.len() == s.len() || !is_word_char(s[i + w.len()])
}

/// The first position from `i` on at which the word `w` stands in `s`; -1
/// where it stands nowhere.
pub open spec fn first_word(s: Seq<char>, w: Seq<char>, i: int) -> int
    decreases s.len() - i,
{
    if i < 0 || w.len() == 0 || i + w.len() > s.len() {
        -1
    } else if word_at(s, i, w) {
        i
    } else {
        first_word(s, w, i + 1)
    }
}

/// Whether one of the informational flags stands in `s` at position `i`.
pub open spec fn flag_at(s: Seq<char>, i: int) -> bool {
    exists|k: int|
        0 <= k < informational_flags().len() && has_at(s, i, #[trigger] informational_flags()[k])
}

/// Whether the line invokes the tool to act: it holds the tool's name as a
/// word, in any case of letters, and behind the first such word, blanks
/// aside, stands none of the informational flags.
pub open spec fn invokes_tool(l: Seq<char>) -> bool {
    let low = ascii_lower(l);
    let k = first_word(low, tool_name(), 0);
    k >= 0 && !flag_at(low, run_end(low, k + tool_name().len(), CharClass::Blank))
}

/// The record that the lines of a block give: the first line that can be a
/// command, joined with the line below it where that line invokes the tool;
/// and as output the lines that follow, joined and trimmed. A block without a
/// command line gives no record.
pub open spec fn heuristic_record(block: Seq<Seq<char>>) -> Option<(Seq<char>, Seq<char>)> {
    let i = command_index(block, 0);
    if i >= block.len() {
        None
    } else if i + 1 < block.len() && invokes_tool(block[i + 1]) {
        Some(
            (
                block[i] + seq!['\n'] + block[i + 1],
                trim(join(block.skip(i + 2), seq!['\n'])),
            ),
        )
    } else {
        Some((block[i], trim(join(block.skip(i + 1), seq!['\n']))))
    }
}

fn noise(l: &Vec<char>) -> (b: bool)
    ensures
        b == is_noise(l@),
{
    let mut i: usize = 0;
    while i < l.len()
        invariant
            i <= l.len(),
            forall|k: int| 0 <= k < i ==> is_whitespace(#[trigger] l@[k]) || l@[k] == RETURN_GLYPH,
        decreases l.len() - i,
    {
        if !whitespace(l[i]) && l[i] != RETURN_GLYPH {
            return false;
        }
        i = i + 1;
    }
    true
}

fn prompt_like(l: &Vec<char>) -> (b: bool)
    ensures
        b == is_prompt_like(l@),
{
    let s = trim_chars(l);
    if !has_char(&s, '@') {
        return false;
    }
    let last = s[s.len() - 1];
    last == '#' || last == '$'
}

fn command_line(l: &Vec<char>) -> (b: bool)
    ensures
        b == is_command_line(l@),
{
    !blank(l) && !noise(l) && !prompt_like(l)
}

fn first_command(block: &Vec<Vec<char>>) -> (i: usize)
    ensures
        i == command_index(texts(block@), 0),
        i <= block.len(),
{
    let mut i: usize = 0;
    while i < block.len()
        invariant
            i <= block.len(),
            command_index(texts(block@), i as int) == command_index(texts(block@), 0),
        decreases block.len() - i,
    {
        if command_line(&block[i]) {
            return i;
        }
        i = i + 1;
    }
    i
}

fn find_word(s: &Vec<char>, w: &Vec<char>) -> (r: Option<usize>)
    ensures
        match r {
            Some(k) => k == first_word(s@, w@, 0) && k + w@.len() <= s@.len(),
            None => first_word(s@, w@, 0) == -1,
        },
{
    if w.len() == 0 || w.len() > s.len() {
        return None;
    }
    let stop = s.len() - w.len();
    let mut i: usize = 0;
    while i <= stop
        invariant
            w@.len() > 0,
            stop + w.len() == s.len(),
            i <= stop + 1,
            first_word(s@, w@, i as int) == first_word(s@, w@, 0),
        decreases stop + 1 - i,
    {
        if matches_at(s, i, w) && (i == 0 || !word_char(s[i - 1])) && (i == stop || !word_char(
            s[i + w.len()],
        )) {
            return Some(i);
        }
        i = i + 1;
    }
    None
}

fn flag_follows(s: &Vec<char>, i: usize, flags: &Vec<Vec<char>>) -> (b: bool)
    requires
        texts(flags@) == informational_flags(),
    ensures
        b == flag_at(s@, i as int),
{
    let mut k: usize = 0;
    while k < flags.len()
        invariant
            k <= flags.len(),
            texts(flags@) == informational_flags(),
            forall|m: int| 0 <= m < k ==> !has_at(s@, i as int, #[trigger] informational_flags()[m]),
        decreases flags.len() - k,
    {
        assert(texts(flags@)[k as int] == flags@[k as int]@);
        if matches_at(s, i, &flags[k]) {
            return true;
        }
        k = k + 1;
    }
    assert(texts(flags@).len() == flags@.len());
    false
}

/// Tells whether a line invokes the tool to act.
pub fn invokes_tool_line(l: &Vec<char>, name: &Vec<char>, flags: &Vec<Vec<char>>) -> (b: bool)
    requires
        name@ == tool_name(),
        texts(flags@) == informational_flags(),
    ensures
        b == invokes_tool(l@),
{
    let low = to_ascii_lower(l);
    match find_word(&low, name) {
        None => false,
        Some(k) => {
            assert(k + name@.len() <= low.len());
            let r = scan_run(&low, k + name.len(), CharClass::Blank);
            !flag_follows(&low, r, flags)
        },
    }
}

/// The views of the two texts of a record, where there is one.
pub open spec fn record_texts(r: Option<(Vec<char>, Vec<char>)>) -> Option<
    (Seq<char>, Seq<char>),
> {
    match r {
        None => None,
        Some((command, output)) => Some((command@, output@)),
    }
}

/// Extracts the record of a block by its lines alone.
pub fn heuristic(block: &Vec<Vec<char>>) -> (r: Option<(Vec<char>, Vec<char>)>)
    ensures
        record_texts(r) == heuristic_record(texts(block@)),
{
    let i = first_command(block);
    if i >= block.len() {
        return None;
    }
    let name = to_chars("wtf");
    let flags = tool_flags();
    let newline: Vec<char> = vec!['\n'];
    assert(newline@ =~= seq!['\n']);
    let mut command = copy_range(&block[i], 0, block[i].len());
    assert(command@ =~= block@[i as int]@);
    let mut start = i + 1;
    if start < block.len() && invokes_tool_line(&block[start], &name, &flags) {
        append_chars(&mut command, &newline);
        append_chars(&mut command, &block[start]);
        start = start + 1;
    }
    let joined = join_range(block, start, block.len(), &newline);
    assert(texts(block@).subrange(start as int, block@.len() as int) =~= texts(block@).skip(
        start as int,
    ));
    let output = trim_chars(&joined);
    Some((command, output))
}

/// Extracts the `(command, output)` record of a block from its cleaned lines.
/// The command is the first line that is not blank, not noise and not
/// prompt-like, together with the next line where that line invokes the tool
/// to act; the output is what follows, joined by line feeds and trimmed.
/// `None` comes back for a block without a command line, and for no other.
pub fn block_to_cmd_out(block: &[String]) -> (r: Option<(String, String)>)
    ensures
        r.deep_view() == heuristic_record(block.deep_view()),
{
    let lines = char_lines(block);
    match heuristic(&lines) {
        None => None,
        Some((command, output)) => Some((from_chars(&command), from_chars(&output))),
    }
}

/// The length of the title sequence that starts at position `i`: `ESC ]`, the
/// kind `0` or `2`, a semicolon, a text without bell and escape, then a bell
/// or `ESC \`. 0 where none starts there.
pub open spec fn title_len(s: Seq<char>, i: int) -> int {
    let p = run_end(s, i + 4, CharClass::TitleBody);
    if i < 0 || i + 4 > s.len() || s[i] != ESC || s[i + 1] != ']' || (s[i + 2] != '0' && s[i + 2]
        != '2') || s[i + 3] != ';' {
        0
    } else if p < s.len() && s[p] == BEL {
        p + 1 - i
    } else if p + 1 < s.len() && s[p] == ESC && s[p + 1] == '\\' {
        p + 2 - i
    } else {
        0
    }
}

/// The text of the title sequence that starts at position `i`.
pub open spec fn title_text(s: Seq<char>, i: int) -> Seq<char> {
    s.subrange(i + 4, run_end(s, i + 4, CharClass::TitleBody))
}

/// The start of the last title sequence that starts before position `n`; -1
/// where none does.
pub open spec fn last_title(s: Seq<char>, n: int) -> int
    decreases n,
{
    if n <= 0 {
        -1
    } else if title_len(s, n - 1) > 0 {
        n - 1
    } else {
        last_title(s, n - 1)
    }
}

/// The last title sequence is a title sequence, and none starts behind it.
pub proof fn lemma_last_title(s: Seq<char>, n: int)
    ensures
        -1 <= last_title(s, n) < n || (n < 0 && last_title(s, n) == -1),
        last_title(s, n) >= 0 ==> title_len(s, last_title(s, n)) > 0,
        forall|j: int| last_title(s, n) < j < n ==> title_len(s, j) <= 0,
    decreases n,
{
    if n > 0 && title_len(s, n - 1) <= 0 {
        lemma_last_title(s, n - 1);
    }
}

/// A title sequence ends inside the text, and so does its text.
pub proof fn lemma_title_len(s: Seq<char>, i: int)
    ensures
        0 <= title_len(s, i),
        title_len(s, i) > 0 ==> 0 <= i && i + 4 <= run_end(s, i + 4, CharClass::TitleBody) < i
            + title_len(s, i) <= s.len(),
{
    if 0 <= i && i + 4 <= s.len() {
        lemma_run_end(s, i + 4, CharClass::TitleBody);
    }
}

fn title_at(s: &Vec<char>, i: usize) -> (n: usize)
    requires
        i < s.len(),
    ensures
        n == title_len(s@, i as int),
        i + n <= s.len(),
{
    let len = s.len();
    if len - i < 4 || s[i] != ESC || s[i + 1] != ']' || (s[i + 2] != '0' && s[i + 2] != '2') || s[i
        + 3] != ';' {
        return 0;
    }
    let p = scan_run(s, i + 4, CharClass::TitleBody);
    if p < len && s[p] == BEL {
        p + 1 - i
    } else if len - p > 1 && s[p] == ESC && s[p + 1] == '\\' {
        p + 2 - i
    } else {
        0
    }
}

fn find_last_title(s: &Vec<char>) -> (r: Option<usize>)
    ensures
        match r {
            Some(i) => i == last_title(s@, s@.len() as int),
            None => last_title(s@, s@.len() as int) == -1,
        },
{
    let mut n: usize = s.len();
    while n > 0
        invariant
            n <= s.len(),
            last_title(s@, n as int) == last_title(s@, s@.len() as int),
        decreases n,
    {
        if title_at(s, n - 1) > 0 {
            return Some(n - 1);
        }
        n = n - 1;
    }
    None
}

/// The title without a bracketed tag at its start: an opening bracket, any
/// text up to the first closing bracket, and the blanks behind it, of which
/// there is at least one. A title that does not start so is left as it is.
pub open spec fn strip_tag(s: Seq<char>) -> Seq<char> {
    let close = run_end(s, 1, CharClass::TagBody);
    let rest = run_end(s, close + 1, CharClass::Blank);
    if s.len() > 0 && s[0] == '[' && close < s.len() && rest > close + 1 {
        s.skip(rest)
    } else {
        s
    }
}

/// Whether the token looks like a directory: it starts with `/` or `~`.
pub open spec fn is_path_like(token: Seq<char>) -> bool {
    token.len() > 0 && (token[0] == '/' || token[0] == '~')
}

/// The tokens of a title that make up a command: those of the title without
/// its tag, less the last one where that looks like a directory.
pub open spec fn title_tokens(title: Seq<char>) -> Seq<Seq<char>> {
    let all = split_tokens(strip_tag(trim(title)));
    if all.len() > 0 && is_path_like(all.last()) {
        all.drop_last()
    } else {
        all
    }
}

/// The command that a title gives: its command tokens, joined by single
/// spaces. Empty where the title holds no such token.
pub open spec fn command_from_title(title: Seq<char>) -> Seq<char> {
    join(title_tokens(title), seq![' '])
}

fn untagged(s: &Vec<char>) -> (r: Vec<char>)
    ensures
        r@ == strip_tag(s@),
{
    let len = s.len();
    if len == 0 || s[0] != '[' {
        assert(s@.subrange(0, len as int) =~= s@);
        return copy_range(s, 0, len);
    }
    let close = scan_run(s, 1, CharClass::TagBody);
    if close >= len {
        assert(s@.subrange(0, len as int) =~= s@);
        return copy_range(s, 0, len);
    }
    let rest = scan_run(s, close + 1, CharClass::Blank);
    if rest > close + 1 {
        assert(s@.subrange(rest as int, len as int) =~= s@.skip(rest as int));
        copy_range(s, rest, len)
    } else {
        assert(s@.subrange(0, len as int) =~= s@);
        copy_range(s, 0, len)
    }
}

/// Derives a command from the text of a title sequence.
pub fn title_command(title: &Vec<char>) -> (r: Vec<char>)
    ensures
        r@ == command_from_title(title@),
{
    let trimmed = trim_chars(title);
    let body = untagged(&trimmed);
    let all = tokens(&body);
    let n = all.len();
    let space: Vec<char> = vec![' '];
    assert(space@ =~= seq![' ']);
    proof {
        assert(texts(all@).len() == n);
        if n > 0 {
            assert(texts(all@).last() == all@[n - 1]@);
        }
        assert(texts(all@).subrange(0, n as int) =~= texts(all@));
        if n > 0 {
            assert(texts(all@).subrange(0, n - 1) =~= texts(all@).drop_last());
        }
    }
    if n > 0 && all[n - 1].len() > 0 && (all[n - 1][0] == '/' || all[n - 1][0] == '~') {
        join_range(&all, 0, n - 1, &space)
    } else {
        join_range(&all, 0, n, &space)
    }
}

/// Derives a command from the text of a window title such as
/// `[host] cmd args ~/dir`: a bracketed tag at the start is dropped with the
/// blanks behind it, the rest is split at white space, a last token that
/// starts with `/` or `~` is dropped, and what remains is joined by single
/// spaces.
pub fn cmd_from_title(title: &str) -> (r: String)
    ensures
        r@ == command_from_title(title@),
{
    let t = to_chars(title);
    let r = title_command(&t);
    from_chars(&r)
}

/// The lines of output that follow a title sequence: each raw line cleaned and
/// trimmed, less those that are empty then and those that only echo the
/// command, being the command itself or a part of it from its start.
pub open spec fn output_lines(raw_lines: Seq<Seq<char>>, command: Seq<char>) -> Seq<Seq<char>>
    decreases raw_lines.len(),
{
    if raw_lines.len() == 0 {
        Seq::empty()
    } else {
        let before = output_lines(raw_lines.drop_last(), command);
        let l = trim(cleaned(raw_lines.last()));
        if l.len() == 0 || l.is_prefix_of(command) {
            before
        } else {
            before.push(l)
        }
    }
}

/// The output that follows a title sequence ending at position `end` of the
/// raw text of a block.
pub open spec fn title_output(raw: Seq<char>, end: int, command: Seq<char>) -> Seq<char> {
    trim(join(output_lines(lines_from(raw, end), command), seq!['\n']))
}

fn starts(command: &Vec<char>, l: &Vec<char>) -> (b: bool)
    ensures
        b == l@.is_prefix_of(command@),
{
    if l.len() > command.len() {
        return false;
    }
    let b = matches_at(command, 0, l);
    b
}

fn output_after(raw: &Vec<char>, end: usize, command: &Vec<char>) -> (r: Vec<char>)
    ensures
        r@ == title_output(raw@, end as int, command@),
{
    let raw_lines = lines_after(raw, end);
    let mut kept: Vec<Vec<char>> = Vec::new();
    let mut i: usize = 0;
    assert(texts(raw_lines@).take(0) =~= Seq::empty());
    assert(texts(kept@) =~= Seq::empty());
    while i < raw_lines.len()
        invariant
            i <= raw_lines.len(),
            texts(kept@) == output_lines(texts(raw_lines@).take(i as int), command@),
        decreases raw_lines.len() - i,
    {
        proof {
            let next = texts(raw_lines@).take(i + 1);
            assert(next.drop_last() =~= texts(raw_lines@).take(i as int));
            assert(next.last() == raw_lines@[i as int]@);
        }
        let c = clean_chars(&raw_lines[i]);
        let l = trim_chars(&c);
        let ghost before = texts(kept@);
        if l.len() > 0 && !starts(command, &l) {
            kept.push(l);
            assert(texts(kept@) =~= before.push(l@));
        }
        i = i + 1;
    }
    assert(texts(raw_lines@).take(raw_lines@.len() as int) =~= texts(raw_lines@));
    let newline: Vec<char> = vec!['\n'];
    assert(newline@ =~= seq!['\n']);
    let joined = join_range(&kept, 0, kept.len(), &newline);
    assert(texts(kept@).subrange(0, kept@.len() as int) =~= texts(kept@));
    trim_chars(&joined)
}

/// The record of a block, given its cleaned lines and its raw text. Without a
/// command line among the cleaned lines there is none. Else it is the record
/// that the lines give, unless the raw text holds a title sequence: then the
/// command is the one that the last title gives, where that is not empty, and
/// the output is what follows that title sequence.
pub open spec fn block_record(clean_lines: Seq<Seq<char>>, raw: Seq<char>) -> Option<
    (Seq<char>, Seq<char>),
> {
    let at = last_title(raw, raw.len() as int);
    match heuristic_record(clean_lines) {
        None => None,
        Some((command, output)) => if at < 0 {
            Some((command, output))
        } else {
            let better = command_from_title(title_text(raw, at));
            let resolved = if better.len() > 0 {
                better
            } else {
                command
            };
            Some((resolved, title_output(raw, at + title_len(raw, at), resolved)))
        },
    }
}

/// Where a block has a command line and its raw text holds a title sequence
/// whose last one gives a command, that command is the command of the record,
/// whatever the lines of the block would give.
pub proof fn title_takes_precedence(clean_lines: Seq<Seq<char>>, raw: Seq<char>)
    requires
        heuristic_record(clean_lines) is Some,
        last_title(raw, raw.len() as int) >= 0,
        command_from_title(title_text(raw, last_title(raw, raw.len() as int))).len() > 0,
    ensures
        block_record(clean_lines, raw) == Some(
            (
                command_from_title(title_text(raw, last_title(raw, raw.len() as int))),
                title_output(
                    raw,
                    last_title(raw, raw.len() as int) + title_len(
                        raw,
                        last_title(raw, raw.len() as int),
                    ),
                    command_from_title(title_text(raw, last_title(raw, raw.len() as int))),
                ),
            ),
        ),
{
}

/// Extracts the record of a block from its cleaned lines and its raw text.
pub fn extract_record(clean_lines: &Vec<Vec<char>>, raw: &Vec<char>) -> (r: Option<
    (Vec<char>, Vec<char>),
>)
    ensures
        record_texts(r) == block_record(texts(clean_lines@), raw@),
{
    match heuristic(clean_lines) {
        None => None,
        Some((command, output)) => {
            match find_last_title(raw) {
                None => Some((command, output)),
                Some(at) => {
                    proof {
                        lemma_last_title(raw@, raw@.len() as int);
                        lemma_title_len(raw@, at as int);
                    }
                    let n = title_at(raw, at);
                    let p = scan_run(raw, at + 4, CharClass::TitleBody);
                    let title = copy_range(raw, at + 4, p);
                    let better = title_command(&title);
                    let resolved = if better.len() > 0 {
                        better
                    } else {
                        command
                    };
                    let out = output_after(raw, at + n, &resolved);
                    Some((resolved, out))
                },
            }
        },
    }
}

/// Extracts the `(command, output)` record of a block from its cleaned lines
/// and its raw text, the raw lines joined by line feeds. See [`block_record`].
pub fn block_to_record(clean_lines: &[String], raw: &str) -> (r: Option<(String, String)>)
    ensures
        r.deep_view() == block_record(clean_lines.deep_view(), raw@),
{
    let lines = char_lines(clean_lines);
    let text = to_chars(raw);
    match extract_record(&lines, &text) {
        None => None,
        Some((command, output)) => Some((from_chars(&command), from_chars(&output))),
    }
}

} // verus!
