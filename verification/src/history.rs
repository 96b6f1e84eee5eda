//! The whole pipeline, from the raw text of a transcript to the last records
//! that the caller asked for.

use crate::clean::{clean_chars, clean_line, clean_line_spec, clean_text_spec};
use crate::extract::{block_record, extract_record, heuristic, heuristic_record};
use crate::filter::{filter_records, filter_wtf_commands_inline};
use crate::hooks::{find_hooks, hook_blocks, hook_indices, positions};
use crate::text::{
    from_chars, join, join_range, lines_after, split_lines, texts, to_chars, trim_chars,
};
use vstd::prelude::*;

verus! {

/// The cleaned lines of a sequence of raw lines: one for each raw line, at
/// the same index.
pub open spec fn cleaned_lines(raw_lines: Seq<Seq<char>>) -> Seq<Seq<char>> {
    raw_lines.map_values(|l: Seq<char>| clean_line_spec(l))
}

/// Cleans the lines of a transcript one by one. The result is aligned with
/// the raw lines: it has one entry for each raw line, at the same index, and
/// that entry is the cleaned form of the raw line.
pub fn clean_lines(raw_lines: &[String]) -> (r: Vec<String>)
    ensures
        r@.len() == raw_lines@.len(),
        forall|i: int| 0 <= i < r@.len() ==> (#[trigger] r@[i])@ == clean_line_spec(raw_lines@[i]@),
        r.deep_view() == cleaned_lines(raw_lines.deep_view()),
{
    let mut r: Vec<String> = Vec::new();
    let mut i: usize = 0;
    while i < raw_lines.len()
        invariant
            i <= raw_lines.len(),
            r@.len() == i,
            forall|k: int| 0 <= k < i ==> (#[trigger] r@[k])@ == clean_line_spec(raw_lines@[k]@),
        decreases raw_lines.len() - i,
    {
        r.push(clean_line(raw_lines[i].as_str()));
        i = i + 1;
    }
    assert(r.deep_view() =~= cleaned_lines(raw_lines.deep_view()));
    r
}

fn clean_each(raw_lines: &Vec<Vec<char>>) -> (r: Vec<Vec<char>>)
    ensures
        texts(r@) == cleaned_lines(texts(raw_lines@)),
{
    let mut r: Vec<Vec<char>> = Vec::new();
    let mut i: usize = 0;
    while i < raw_lines.len()
        invariant
            i <= raw_lines.len(),
            r@.len() == i,
            forall|k: int| 0 <= k < i ==> (#[trigger] r@[k])@ == clean_line_spec(raw_lines@[k]@),
        decreases raw_lines.len() - i,
    {
        r.push(clean_chars(&raw_lines[i]));
        i = i + 1;
    }
    assert(texts(r@) =~= cleaned_lines(texts(raw_lines@)));
    r
}

fn copy_lines(lines: &Vec<Vec<char>>, from: usize, to: usize) -> (r: Vec<Vec<char>>)
    requires
        from <= to <= lines.len(),
    ensures
        texts(r@) == texts(lines@).subrange(from as int, to as int),
{
    let mut r: Vec<Vec<char>> = Vec::new();
    let mut i: usize = from;
    while i < to
        invariant
            from <= i <= to <= lines.len(),
            r@.len() == i - from,
            forall|k: int| 0 <= k < i - from ==> (#[trigger] r@[k])@ == lines@[from + k]@,
        decreases to - i,
    {
        r.push(lines[i].clone());
        i = i + 1;
    }
    assert(texts(r@) =~= texts(lines@).subrange(from as int, to as int));
    r
}

/// The records among the candidates, in their order.
pub open spec fn present(candidates: Seq<Option<(Seq<char>, Seq<char>)>>) -> Seq<
    (Seq<char>, Seq<char>),
>
    decreases candidates.len(),
{
    if candidates.len() == 0 {
        Seq::empty()
    } else {
        let before = present(candidates.drop_last());
        match candidates.last() {
            Some(r) => before.push(r),
            None => before,
        }
    }
}

/// What the blocks of the transcript give, block by block, when each line is
/// cleaned on its own and each block is read with its raw text beside it.
pub open spec fn primary_candidates(raw: Seq<char>) -> Seq<Option<(Seq<char>, Seq<char>)>> {
    let raw_lines = split_lines(raw);
    let clean = cleaned_lines(raw_lines);
    let idx = hook_indices(clean);
    Seq::new(
        if idx.len() >= 2 {
            (idx.len() - 1) as nat
        } else {
            0
        },
        |k: int|
            block_record(
                clean.subrange(idx[k] + 1, idx[k + 1]),
                join(raw_lines.subrange(idx[k] + 1, idx[k + 1]), seq!['\n']),
            ),
    )
}

/// What the blocks of the transcript give, block by block, when the whole
/// text is cleaned at once and each block is read by its lines alone.
pub open spec fn fallback_candidates(raw: Seq<char>) -> Seq<Option<(Seq<char>, Seq<char>)>> {
    hook_blocks(split_lines(clean_text_spec(raw))).map_values(
        |b: Seq<Seq<char>>| heuristic_record(b),
    )
}

/// The records of a transcript, before filtering: those of the line-by-line
/// reading, and those of the whole-text reading where the first finds none.
pub open spec fn transcript_records(raw: Seq<char>) -> Seq<(Seq<char>, Seq<char>)> {
    let primary = present(primary_candidates(raw));
    if primary.len() > 0 {
        primary
    } else {
        present(fallback_candidates(raw))
    }
}

/// The last `n` of the records, in their order; all of them where there are
/// no more than `n`.
pub open spec fn last_records(records: Seq<(Seq<char>, Seq<char>)>, n: nat) -> Seq<
    (Seq<char>, Seq<char>),
> {
    if n >= records.len() {
        records
    } else {
        records.skip(records.len() - n)
    }
}

/// The history that a transcript gives: its records, filtered, and of those
/// the last `n`.
pub open spec fn history(raw: Seq<char>, n: nat) -> Seq<(Seq<char>, Seq<char>)> {
    last_records(filter_records(transcript_records(raw)), n)
}

/// Asking for more records than there are returns them all, unshortened and
/// in their order; asking for none returns none; and never more than `n`
/// come back.
pub proof fn selector_boundaries(records: Seq<(Seq<char>, Seq<char>)>, n: nat)
    ensures
        n >= records.len() ==> last_records(records, n) == records,
        last_records(records, 0) == Seq::<(Seq<char>, Seq<char>)>::empty(),
        last_records(records, n).len() == if n <= records.len() {
            n
        } else {
            records.len()
        },
        forall|i: int|
            0 <= i < last_records(records, n).len() ==> #[trigger] last_records(records, n)[i]
                == records[records.len() - last_records(records, n).len() + i],
{
    assert(last_records(records, 0) =~= Seq::empty());
}

/// Trims an ordered list of records to its last `n`.
pub fn select_last(records: &[(String, String)], n: usize) -> (r: Vec<(String, String)>)
    ensures
        r.deep_view() == last_records(records.deep_view(), n as nat),
{
    let len = records.len();
    let start = if n >= len {
        0
    } else {
        len - n
    };
    let mut r: Vec<(String, String)> = Vec::new();
    let mut i: usize = start;
    while i < len
        invariant
            start <= i <= len == records@.len(),
            r@.len() == i - start,
            forall|k: int|
                0 <= k < i - start ==> (#[trigger] r@[k]).deep_view() == records@[start
                    + k].deep_view(),
        decreases len - i,
    {
        r.push((records[i].0.clone(), records[i].1.clone()));
        i = i + 1;
    }
    assert(r.deep_view() =~= last_records(records.deep_view(), n as nat));
    r
}

fn primary_pass(raw: &Vec<char>) -> (r: Vec<(String, String)>)
    ensures
        r.deep_view() == present(primary_candidates(raw@)),
{
    let raw_lines = lines_after(raw, 0);
    let clean = clean_each(&raw_lines);
    let idx = find_hooks(&clean);
    let mut r: Vec<(String, String)> = Vec::new();
    let n = idx.len();
    let ghost candidates = primary_candidates(raw@);
    assert(candidates.take(0) =~= Seq::empty());
    assert(r.deep_view() =~= Seq::empty());
    if n < 2 {
        assert(candidates =~= Seq::empty());
        return r;
    }
    let newline: Vec<char> = vec!['\n'];
    assert(newline@ =~= seq!['\n']);
    let mut k: usize = 0;
    while k + 1 < n
        invariant
            2 <= n == idx@.len(),
            k + 1 <= n,
            newline@ == seq!['\n'],
            candidates == primary_candidates(raw@),
            texts(raw_lines@) == split_lines(raw@),
            texts(clean@) == cleaned_lines(texts(raw_lines@)),
            positions(idx@) == hook_indices(texts(clean@)),
            forall|m: int| 0 <= m < idx@.len() ==> #[trigger] idx@[m] < clean@.len(),
            forall|j: int, m: int| 0 <= j < m < idx@.len() ==> idx@[j] < idx@[m],
            r.deep_view() == present(candidates.take(k as int)),
        decreases n - k,
    {
        let a = idx[k];
        let b = idx[k + 1];
        proof {
            assert(positions(idx@)[k as int] == a);
            assert(positions(idx@)[k + 1] == b);
            assert(texts(clean@).len() == texts(raw_lines@).len());
            assert(candidates.take(k + 1).drop_last() =~= candidates.take(k as int));
        }
        let block = copy_lines(&clean, a + 1, b);
        let block_raw = join_range(&raw_lines, a + 1, b, &newline);
        let ghost before = r.deep_view();
        match extract_record(&block, &block_raw) {
            None => {},
            Some((command, output)) => {
                let c = from_chars(&command);
                let o = from_chars(&output);
                r.push((c, o));
                assert(r.deep_view() =~= before.push((command@, output@)));
            },
        }
        k = k + 1;
    }
    assert(candidates.take(k as int) =~= candidates);
    r
}

fn fallback_pass(raw: &Vec<char>) -> (r: Vec<(String, String)>)
    ensures
        r.deep_view() == present(fallback_candidates(raw@)),
{
    let cleaned = trim_chars(&clean_chars(raw));
    let lines = lines_after(&cleaned, 0);
    let idx = find_hooks(&lines);
    let mut r: Vec<(String, String)> = Vec::new();
    let n = idx.len();
    let ghost candidates = fallback_candidates(raw@);
    assert(candidates.take(0) =~= Seq::empty());
    assert(r.deep_view() =~= Seq::empty());
    if n < 2 {
        assert(candidates =~= Seq::empty());
        return r;
    }
    let mut k: usize = 0;
    while k + 1 < n
        invariant
            2 <= n == idx@.len(),
            k + 1 <= n,
            candidates == fallback_candidates(raw@),
            texts(lines@) == split_lines(clean_text_spec(raw@)),
            positions(idx@) == hook_indices(texts(lines@)),
            forall|m: int| 0 <= m < idx@.len() ==> #[trigger] idx@[m] < lines@.len(),
            forall|j: int, m: int| 0 <= j < m < idx@.len() ==> idx@[j] < idx@[m],
            r.deep_view() == present(candidates.take(k as int)),
        decreases n - k,
    {
        let a = idx[k];
        let b = idx[k + 1];
        proof {
            assert(positions(idx@)[k as int] == a);
            assert(positions(idx@)[k + 1] == b);
            assert(candidates.take(k + 1).drop_last() =~= candidates.take(k as int));
        }
        let block = copy_lines(&lines, a + 1, b);
        let ghost before = r.deep_view();
        match heuristic(&block) {
            None => {},
            Some((command, output)) => {
                let c = from_chars(&command);
                let o = from_chars(&output);
                r.push((c, o));
                assert(r.deep_view() =~= before.push((command@, output@)));
            },
        }
        k = k + 1;
    }
    assert(candidates.take(k as int) =~= candidates);
    r
}

/// Reconstructs the records of a transcript from its raw text, as they are
/// before filtering. Each line is cleaned on its own and each block is read
/// with its raw text beside it; where that finds no record, the whole text
/// is cleaned at once and each block is read by its lines alone.
pub fn parse_transcript(raw: &str) -> (r: Vec<(String, String)>)
    ensures
        r.deep_view() == transcript_records(raw@),
{
    let text = to_chars(raw);
    let primary = primary_pass(&text);
    if primary.len() > 0 {
        primary
    } else {
        fallback_pass(&text)
    }
}

/// The last `n` commands of a transcript with their outputs, oldest first,
/// from the raw text of the transcript. A transcript without two marker lines,
/// or without a command between them, gives an empty list.
pub fn get_last_n_commands(raw: &str, n: usize) -> (r: Vec<(String, String)>)
    ensures
        r.deep_view() == history(raw@, n as nat),
{
    let records = parse_transcript(raw);
    let filtered = filter_wtf_commands_inline(records.as_slice());
    select_last(filtered.as_slice(), n)
}

} // verus!
