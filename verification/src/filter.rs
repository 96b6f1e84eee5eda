//! The result filter: takes the tool's own invocations out of the records, so
//! that a request for a fix never shows up as history.

use crate::extract::tool_name;
use crate::text::{is_whitespace, lemma_trim_of_trimmed, matches_at, to_chars, trim, trim_chars};
use vstd::prelude::*;

verus! {

/// What the filter does with a record.
#[derive(Clone, Copy, Debug, PartialEq, Eq)]
pub enum Disposition {
    /// The record passes unchanged.
    Keep,
    /// The record is an invocation of the tool: its command goes, and its
    /// output is folded into the record before it.
    Fold,
    /// The record is a viewing of the logs: it goes.
    Drop,
}

/// The end of a command that views the logs.
pub open spec fn logs_tail() -> Seq<char> {
    "wtf --logs"@
}

/// What the filter does with a record that has the given command, going by
/// the end of the trimmed command: the tool's name and the logs flag, a single
/// space between them; else the tool's name alone; else anything.
pub open spec fn disposition(command: Seq<char>) -> Disposition {
    let s = trim(command);
    if logs_tail().is_suffix_of(s) {
        Disposition::Drop
    } else if tool_name().is_suffix_of(s) {
        Disposition::Fold
    } else {
        Disposition::Keep
    }
}

/// The output of a record after the output of an invocation of the tool was
/// folded into it: unchanged where there is nothing to fold, the folded output
/// alone where the record had none, else the two with a line feed between.
pub open spec fn folded(into: Seq<char>, output: Seq<char>) -> Seq<char> {
    if output.len() == 0 {
        into
    } else if into.len() == 0 {
        output
    } else {
        into + seq!['\n'] + output
    }
}

/// The records that the filter lets through, in their order. A viewing of the
/// logs is dropped. An invocation of the tool is dropped too, and its output
/// folded into the record kept last; where none was kept yet, it stays as a
/// record without a command. Every other record passes unchanged.
pub open spec fn filter_records(records: Seq<(Seq<char>, Seq<char>)>) -> Seq<
    (Seq<char>, Seq<char>),
>
    decreases records.len(),
{
    if records.len() == 0 {
        Seq::empty()
    } else {
        let kept = filter_records(records.drop_last());
        let (command, output) = records.last();
        match disposition(command) {
            Disposition::Drop => kept,
            Disposition::Fold => if kept.len() > 0 {
                kept.drop_last().push((kept.last().0, folded(kept.last().1, output)))
            } else {
                seq![(Seq::empty(), output)]
            },
            Disposition::Keep => kept.push((command, output)),
        }
    }
}

fn ends_with(s: &Vec<char>, tail: &Vec<char>) -> (b: bool)
    ensures
        b == tail@.is_suffix_of(s@),
{
    if tail.len() > s.len() {
        return false;
    }
    matches_at(s, s.len() - tail.len(), tail)
}

/// Decides what the filter does with a record that has the given command.
pub fn classify(command: &str) -> (d: Disposition)
    ensures
        d == disposition(command@),
{
    let s = trim_chars(&to_chars(command));
    let logs = to_chars("wtf --logs");
    let name = to_chars("wtf");
    if ends_with(&s, &logs) {
        Disposition::Drop
    } else if ends_with(&s, &name) {
        Disposition::Fold
    } else {
        Disposition::Keep
    }
}

fn fold_output(into: String, output: &String) -> (r: String)
    ensures
        r@ == folded(into@, output@),
{
    if output.as_str().is_empty() {
        into
    } else if into.as_str().is_empty() {
        output.clone()
    } else {
        let mut r = into;
        proof {
            reveal_strlit("\n");
        }
        r.append("\n");
        r.append(output.as_str());
        assert("\n"@ =~= seq!['\n']);
        r
    }
}

/// Filters the records of a transcript: drops each viewing of the logs, and
/// folds each invocation of the tool into the record kept before it.
pub fn filter_wtf_commands_inline(results: &[(String, String)]) -> (filtered: Vec<
    (String, String),
>)
    ensures
        filtered.deep_view() == filter_records(results.deep_view()),
{
    let mut filtered: Vec<(String, String)> = Vec::new();
    let mut i: usize = 0;
    assert(results.deep_view().take(0) =~= Seq::empty());
    assert(filtered.deep_view() =~= Seq::empty());
    while i < results.len()
        invariant
            i <= results.len(),
            filtered.deep_view() == filter_records(results.deep_view().take(i as int)),
        decreases results.len() - i,
    {
        proof {
            let next = results.deep_view().take(i + 1);
            assert(next.drop_last() =~= results.deep_view().take(i as int));
            assert(next.last() == (results@[i as int].0@, results@[i as int].1@));
        }
        let ghost kept = filtered.deep_view();
        let command = &results[i].0;
        let output = &results[i].1;
        match classify(command.as_str()) {
            Disposition::Drop => {},
            Disposition::Fold => {
                match filtered.pop() {
                    Some((last_command, last_output)) => {
                        let merged = fold_output(last_output, output);
                        let ghost front = filtered.deep_view();
                        assert(front =~= kept.drop_last());
                        assert(kept.last() == (last_command@, last_output@));
                        filtered.push((last_command, merged));
                        assert(filtered.deep_view() =~= front.push((last_command@, merged@)));
                    },
                    None => {
                        let empty = String::new();
                        filtered.push((empty, output.clone()));
                        assert(filtered.deep_view() =~= seq![(Seq::<char>::empty(), output@)]);
                    },
                }
            },
            Disposition::Keep => {
                filtered.push((command.clone(), output.clone()));
                assert(filtered.deep_view() =~= kept.push((command@, output@)));
            },
        }
        i = i + 1;
    }
    assert(results.deep_view().take(results@.len() as int) =~= results.deep_view());
    filtered
}

/// Every record that the filter lets through has no command, or a command
/// that the filter keeps.
pub proof fn lemma_filter_keeps(records: Seq<(Seq<char>, Seq<char>)>)
    ensures
        filter_records(records).len() <= records.len(),
        forall|i: int|
            0 <= i < filter_records(records).len() ==> {
                let command = (#[trigger] filter_records(records)[i]).0;
                command.len() == 0 || disposition(command) == Disposition::Keep
            },
    decreases records.len(),
{
    if records.len() > 0 {
        lemma_filter_keeps(records.drop_last());
        let kept = filter_records(records.drop_last());
        let r = filter_records(records);
        assert forall|i: int| 0 <= i < r.len() implies {
            let command = (#[trigger] r[i]).0;
            command.len() == 0 || disposition(command) == Disposition::Keep
        } by {
            if i < kept.len() {
                assert(r[i].0 == kept[i].0);
            }
        }
    }
}

/// A record whose command is exactly `wtf --logs` never comes out of the
/// filter, wherever it stood.
pub proof fn logs_view_excluded(records: Seq<(Seq<char>, Seq<char>)>)
    ensures
        forall|i: int|
            0 <= i < filter_records(records).len() ==> (#[trigger] filter_records(records)[i]).0
                != logs_tail(),
{
    lemma_filter_keeps(records);
    reveal_strlit("wtf --logs");
    let t = logs_tail();
    assert(t.len() == 10);
    assert(t.first() == 'w' && t.last() == 's');
    assert(!is_whitespace('w') && !is_whitespace('s'));
    lemma_trim_of_trimmed(t);
    assert(t.subrange(0, t.len() as int) =~= t);
    assert(disposition(t) == Disposition::Drop);
}

} // verus!
