//! What the callers make of the records: the context block and the prompt for
//! the language model, the listing for the terminal, and the reading of the
//! model's reply.

use crate::text::{
    append_chars, from_chars, join, join_range, same_text, texts, to_chars, trim, trim_chars,
};
use vstd::prelude::*;

verus! {

/// The instructions that open every prompt.
pub open spec fn prompt_head() -> Seq<char> {
    "You are given a shell session log. Your task: output ONE corrected shell command that fixes the last command's error.\n\nStrict requirements:\n- Correct flags and syntax (add missing leading dashes for short flags).\n- Keep the user's intent and minimal changes.\n- Quote paths/args with spaces.\n- Output only the command, no comments, no backticks, no code fences.\n- If nothing needs fixing or it's ambiguous, output exactly: None\n\nContext:\n"@
}

/// Builds the prompt for the language model: the instructions, the context,
/// and a line feed.
pub fn build_prompt(context: &str) -> (r: String)
    ensures
        r@ == prompt_head() + context@ + seq!['\n'],
{
    let mut r = String::from_str(
        "You are given a shell session log. Your task: output ONE corrected shell command that fixes the last command's error.\n\nStrict requirements:\n- Correct flags and syntax (add missing leading dashes for short flags).\n- Keep the user's intent and minimal changes.\n- Quote paths/args with spaces.\n- Output only the command, no comments, no backticks, no code fences.\n- If nothing needs fixing or it's ambiguous, output exactly: None\n\nContext:\n",
    );
    r.append(context);
    proof {
        reveal_strlit("\n");
    }
    r.append("\n");
    assert("\n"@ =~= seq!['\n']);
    r
}

/// The part of the context that one record makes: its output alone where it
/// has no command, else its command, an empty line, and its output.
pub open spec fn context_part(record: (Seq<char>, Seq<char>)) -> Seq<char> {
    if record.0.len() == 0 {
        record.1
    } else {
        record.0 + seq!['\n', '\n'] + record.1
    }
}

/// The context block that the records make: their parts, with an empty line
/// between neighbours.
pub open spec fn context_of(records: Seq<(Seq<char>, Seq<char>)>) -> Seq<char> {
    join(records.map_values(|r: (Seq<char>, Seq<char>)| context_part(r)), seq!['\n', '\n'])
}

/// Joins the records of the history into the context block of the prompt.
pub fn previous_commands_context(pairs: &[(String, String)]) -> (r: String)
    ensures
        r@ == context_of(pairs.deep_view()),
{
    let gap: Vec<char> = vec!['\n', '\n'];
    assert(gap@ =~= seq!['\n', '\n']);
    let mut parts: Vec<Vec<char>> = Vec::new();
    let mut i: usize = 0;
    while i < pairs.len()
        invariant
            i <= pairs.len(),
            gap@ == seq!['\n', '\n'],
            parts@.len() == i,
            forall|k: int|
                0 <= k < i ==> (#[trigger] parts@[k])@ == context_part(pairs@[k].deep_view()),
        decreases pairs.len() - i,
    {
        let command = to_chars(pairs[i].0.as_str());
        let output = to_chars(pairs[i].1.as_str());
        if command.len() == 0 {
            parts.push(output);
        } else {
            let mut part = command;
            append_chars(&mut part, &gap);
            append_chars(&mut part, &output);
            parts.push(part);
        }
        i = i + 1;
    }
    let joined = join_range(&parts, 0, parts.len(), &gap);
    proof {
        let wanted = pairs.deep_view().map_values(|r: (Seq<char>, Seq<char>)| context_part(r));
        assert(texts(parts@) =~= wanted);
        assert(texts(parts@).subrange(0, parts@.len() as int) =~= texts(parts@));
    }
    from_chars(&joined)
}

/// The decimal digit for a number below ten.
pub open spec fn digit(d: nat) -> char {
    (('0' as u8) + (d as u8)) as char
}

/// The decimal numeral of a number, without leading zeros.
pub open spec fn decimal(n: nat) -> Seq<char>
    decreases n,
{
    if n < 10 {
        seq![digit(n)]
    } else {
        decimal(n / 10).push(digit(n % 10))
    }
}

/// Writes a number as a decimal numeral.
pub fn to_decimal(n: usize) -> (r: Vec<char>)
    ensures
        r@ == decimal(n as nat),
    decreases n,
{
    if n < 10 {
        let d: u8 = n as u8;
        let c = (48u8 + d) as char;
        let r: Vec<char> = vec![c];
        assert(r@ =~= seq![digit(n as nat)]);
        r
    } else {
        let mut r = to_decimal(n / 10);
        let d: u8 = (n % 10) as u8;
        r.push((48u8 + d) as char);
        r
    }
}

/// The headline of a listing of `count` records.
pub open spec fn listing_head(count: nat) -> Seq<char> {
    if count == 1 {
        "Last command and its output:\n\n"@
    } else {
        "Last "@ + decimal(count) + " commands and their outputs:\n\n"@
    }
}

/// The entry of one record in a listing: the command behind a dollar sign,
/// then the output, or a note where there is none, then an empty line.
pub open spec fn listing_entry(record: (Seq<char>, Seq<char>)) -> Seq<char> {
    "$ "@ + record.0 + seq!['\n'] + if record.1.len() == 0 {
        "(No output)"@
    } else {
        record.1
    } + seq!['\n', '\n']
}

/// The entries of the records, one behind the other.
pub open spec fn listing_entries(records: Seq<(Seq<char>, Seq<char>)>) -> Seq<char>
    decreases records.len(),
{
    if records.len() == 0 {
        Seq::empty()
    } else {
        listing_entries(records.drop_last()) + listing_entry(records.last())
    }
}

/// The listing of the records for the terminal.
pub open spec fn listing(records: Seq<(Seq<char>, Seq<char>)>) -> Seq<char> {
    listing_head(records.len()) + listing_entries(records)
}

/// Renders the records of the history for the terminal: a headline that
/// counts them, then each command behind `$ ` with its output below it, or
/// `(No output)` where it has none.
pub fn render_last_commands(cmds: &[(String, String)]) -> (r: String)
    ensures
        r@ == listing(cmds.deep_view()),
{
    let gap: Vec<char> = vec!['\n', '\n'];
    let newline: Vec<char> = vec!['\n'];
    assert(gap@ =~= seq!['\n', '\n']);
    assert(newline@ =~= seq!['\n']);
    let mut r: Vec<char> = Vec::new();
    if cmds.len() == 1 {
        append_chars(&mut r, &to_chars("Last command and its output:\n\n"));
    } else {
        append_chars(&mut r, &to_chars("Last "));
        append_chars(&mut r, &to_decimal(cmds.len()));
        append_chars(&mut r, &to_chars(" commands and their outputs:\n\n"));
    }
    assert(r@ =~= listing_head(cmds@.len()));
    let mut i: usize = 0;
    assert(cmds.deep_view().take(0) =~= Seq::empty());
    while i < cmds.len()
        invariant
            i <= cmds.len(),
            gap@ == seq!['\n', '\n'],
            newline@ == seq!['\n'],
            r@ == listing_head(cmds@.len()) + listing_entries(cmds.deep_view().take(i as int)),
        decreases cmds.len() - i,
    {
        proof {
            let next = cmds.deep_view().take(i + 1);
            assert(next.drop_last() =~= cmds.deep_view().take(i as int));
            assert(next.last() == cmds@[i as int].deep_view());
        }
        let ghost before = r@;
        let command = to_chars(cmds[i].0.as_str());
        let output = to_chars(cmds[i].1.as_str());
        append_chars(&mut r, &to_chars("$ "));
        append_chars(&mut r, &command);
        append_chars(&mut r, &newline);
        if output.len() == 0 {
            append_chars(&mut r, &to_chars("(No output)"));
        } else {
            append_chars(&mut r, &output);
        }
        append_chars(&mut r, &gap);
        assert(r@ =~= before + listing_entry(cmds@[i as int].deep_view()));
        assert(r@ =~= listing_head(cmds@.len()) + listing_entries(cmds.deep_view().take(i + 1)));
        i = i + 1;
    }
    assert(cmds.deep_view().take(cmds@.len() as int) =~= cmds.deep_view());
    from_chars(&r)
}

/// The reply with which the model says that nothing needs fixing.
pub open spec fn no_fix() -> Seq<char> {
    "None"@
}

/// What the first choice of the model's reply means: an error where the reply
/// held no choice; no suggestion where the trimmed content is `None`; else
/// the trimmed content as the suggestion.
pub open spec fn suggestion_of(content: Option<Seq<char>>) -> Result<Option<Seq<char>>, Seq<char>> {
    match content {
        None => Err("API response format error: no choices"@),
        Some(c) => if trim(c) == no_fix() {
            Ok(None)
        } else {
            Ok(Some(trim(c)))
        },
    }
}

/// Reads the first choice of the model's reply, where there is one.
pub fn suggestion_from_reply(content: Option<&str>) -> (r: Result<Option<String>, String>)
    ensures
        match r {
            Ok(suggestion) => suggestion_of(content.deep_view()) == Ok::<
                Option<Seq<char>>,
                Seq<char>,
            >(suggestion.deep_view()),
            Err(message) => suggestion_of(content.deep_view()) == Err::<
                Option<Seq<char>>,
                Seq<char>,
            >(message@),
        },
{
    match content {
        None => Err(String::from_str("API response format error: no choices")),
        Some(c) => {
            let t = trim_chars(&to_chars(c));
            if same_text(&t, &to_chars("None")) {
                Ok(None)
            } else {
                Ok(Some(from_chars(&t)))
            }
        },
    }
}

} // verus!
