//! The hook-marker detector and the block segmenter: finds the lines that a
//! shell hook wrote at the start of each logged command, and cuts the
//! transcript into the blocks between them.

use crate::text::{
    char_lines, has_at, matches_at, run_end, scan_run, string_lines, texts, to_chars, CharClass,
};
use vstd::prelude::*;

verus! {

/// The phrase that every marker line holds.
pub open spec fn phrase() -> Seq<char> {
    "Shell log started."@
}

/// The phrase that every marker line holds, as characters.
pub fn marker_phrase() -> (p: Vec<char>)
    ensures
        p@ == phrase(),
{
    to_chars("Shell log started.")
}

/// A bash marker: hyphens, blanks, the phrase, blanks, hyphens, at least one
/// of each, and nothing else on the line.
pub open spec fn is_bash_marker(l: Seq<char>) -> bool {
    let a = run_end(l, 0, CharClass::Dash);
    let b = run_end(l, a, CharClass::Blank);
    let c = b + phrase().len();
    let d = run_end(l, c, CharClass::Blank);
    let e = run_end(l, d, CharClass::Dash);
    0 < a && a < b && has_at(l, b, phrase()) && c < d && d < e && e == l.len()
}

/// A zsh marker: the phrase alone on the line, with blanks around it or not.
pub open spec fn is_zsh_marker(l: Seq<char>) -> bool {
    let a = run_end(l, 0, CharClass::Blank);
    let c = a + phrase().len();
    has_at(l, a, phrase()) && run_end(l, c, CharClass::Blank) == l.len()
}

/// A fish marker: the phrase, with blanks around it or not, and behind it
/// nothing but a run of symbols, which may be empty.
pub open spec fn is_fish_marker(l: Seq<char>) -> bool {
    let a = run_end(l, 0, CharClass::Blank);
    let c = a + phrase().len();
    let d = run_end(l, c, CharClass::Blank);
    has_at(l, a, phrase()) && run_end(l, d, CharClass::Symbol) == l.len()
}

/// A marker in one of the three shell styles.
pub open spec fn is_strict_marker(l: Seq<char>) -> bool {
    is_bash_marker(l) || is_zsh_marker(l) || is_fish_marker(l)
}

/// A marker by the fallback rule: the phrase stands somewhere on the line.
pub open spec fn is_generic_marker(l: Seq<char>) -> bool {
    exists|i: int| has_at(l, i, phrase())
}

/// How marker lines are told from the others.
#[derive(Clone, Copy, Debug, PartialEq, Eq)]
pub enum Detection {
    /// By the three shell styles.
    Strict,
    /// By the phrase alone.
    Generic,
}

/// Whether the line is a marker under the given detection.
pub open spec fn is_marker(l: Seq<char>, mode: Detection) -> bool {
    match mode {
        Detection::Strict => is_strict_marker(l),
        Detection::Generic => is_generic_marker(l),
    }
}

/// A marker in one of the shell styles is a marker by the fallback rule too.
pub proof fn lemma_strict_is_generic(l: Seq<char>)
    requires
        is_strict_marker(l),
    ensures
        is_generic_marker(l),
{
    if is_bash_marker(l) {
        assert(has_at(l, run_end(l, run_end(l, 0, CharClass::Dash), CharClass::Blank), phrase()));
    } else {
        assert(has_at(l, run_end(l, 0, CharClass::Blank), phrase()));
    }
}

fn bash_marker(l: &Vec<char>, p: &Vec<char>) -> (r: bool)
    requires
        p@ == phrase(),
    ensures
        r == is_bash_marker(l@),
{
    let a = scan_run(l, 0, CharClass::Dash);
    let b = scan_run(l, a, CharClass::Blank);
    if !(0 < a && a < b && matches_at(l, b, p)) {
        return false;
    }
    let c = b + p.len();
    let d = scan_run(l, c, CharClass::Blank);
    let e = scan_run(l, d, CharClass::Dash);
    c < d && d < e && e == l.len()
}

fn zsh_marker(l: &Vec<char>, p: &Vec<char>) -> (r: bool)
    requires
        p@ == phrase(),
    ensures
        r == is_zsh_marker(l@),
{
    let a = scan_run(l, 0, CharClass::Blank);
    if !matches_at(l, a, p) {
        return false;
    }
    scan_run(l, a + p.len(), CharClass::Blank) == l.len()
}

fn fish_marker(l: &Vec<char>, p: &Vec<char>) -> (r: bool)
    requires
        p@ == phrase(),
    ensures
        r == is_fish_marker(l@),
{
    let a = scan_run(l, 0, CharClass::Blank);
    if !matches_at(l, a, p) {
        return false;
    }
    let d = scan_run(l, a + p.len(), CharClass::Blank);
    scan_run(l, d, CharClass::Symbol) == l.len()
}

fn generic_marker(l: &Vec<char>, p: &Vec<char>) -> (r: bool)
    requires
        p@ == phrase(),
    ensures
        r == is_generic_marker(l@),
{
    let mut i: usize = 0;
    while i < l.len()
        invariant
            i <= l.len(),
            p@ == phrase(),
            forall|k: int| k < i ==> !has_at(l@, k, phrase()),
        decreases l.len() - i,
    {
        if matches_at(l, i, p) {
            return true;
        }
        i = i + 1;
    }
    matches_at(l, i, p)
}

/// Tells whether a line of characters is a marker under the given detection.
pub fn marker_line(l: &Vec<char>, mode: Detection, p: &Vec<char>) -> (r: bool)
    requires
        p@ == phrase(),
    ensures
        r == is_marker(l@, mode),
{
    match mode {
        Detection::Strict => bash_marker(l, p) || zsh_marker(l, p) || fish_marker(l, p),
        Detection::Generic => generic_marker(l, p),
    }
}

/// Tells whether a cleaned line is a session-boundary marker under the given
/// detection.
pub fn is_hook_marker(line: &str, mode: Detection) -> (r: bool)
    ensures
        r == is_marker(line@, mode),
{
    let p = marker_phrase();
    let l = to_chars(line);
    marker_line(&l, mode, &p)
}

/// The indices of the marker lines, in increasing order.
pub open spec fn markers(lines: Seq<Seq<char>>, mode: Detection) -> Seq<int>
    decreases lines.len(),
{
    if lines.len() == 0 {
        Seq::empty()
    } else {
        let before = markers(lines.drop_last(), mode);
        if is_marker(lines.last(), mode) {
            before.push(lines.len() - 1)
        } else {
            before
        }
    }
}

/// The marker indices are exactly the indices of the marker lines, and they
/// increase strictly.
pub proof fn lemma_markers(lines: Seq<Seq<char>>, mode: Detection)
    ensures
        markers(lines, mode).len() <= lines.len(),
        forall|k: int|
            0 <= k < markers(lines, mode).len() ==> {
                let i = #[trigger] markers(lines, mode)[k];
                0 <= i < lines.len() && is_marker(lines[i], mode)
            },
        forall|j: int, k: int|
            0 <= j < k < markers(lines, mode).len() ==> markers(lines, mode)[j] < markers(
                lines,
                mode,
            )[k],
        forall|i: int|
            0 <= i < lines.len() && is_marker(#[trigger] lines[i], mode) ==> markers(
                lines,
                mode,
            ).contains(i),
    decreases lines.len(),
{
    if lines.len() > 0 {
        let t = lines.drop_last();
        lemma_markers(t, mode);
        let m = markers(lines, mode);
        let b = markers(t, mode);
        assert forall|i: int| 0 <= i < lines.len() && is_marker(
            #[trigger] lines[i],
            mode,
        ) implies m.contains(i) by {
            if i < t.len() {
                assert(is_marker(t[i], mode));
                let k = choose|k: int| 0 <= k < b.len() && b[k] == i;
                assert(m[k] == i);
            } else {
                assert(m[m.len() - 1] == i);
            }
        }
    }
}

/// The marker indices that the segmenter goes by: those of the shell styles
/// where they find two markers or more, else those of the fallback rule.
pub open spec fn hook_indices(lines: Seq<Seq<char>>) -> Seq<int> {
    if markers(lines, Detection::Strict).len() >= 2 {
        markers(lines, Detection::Strict)
    } else {
        markers(lines, Detection::Generic)
    }
}

/// The blocks that a sequence of marker indices cuts out: one for each pair of
/// neighbours, made of the lines strictly between the two.
pub open spec fn blocks_between(lines: Seq<Seq<char>>, idx: Seq<int>) -> Seq<Seq<Seq<char>>> {
    Seq::new(
        if idx.len() >= 2 {
            (idx.len() - 1) as nat
        } else {
            0
        },
        |k: int| lines.subrange(idx[k] + 1, idx[k + 1]),
    )
}

/// The blocks of a sequence of cleaned lines.
pub open spec fn hook_blocks(lines: Seq<Seq<char>>) -> Seq<Seq<Seq<char>>> {
    blocks_between(lines, hook_indices(lines))
}

/// The marker indices as plain integers.
pub open spec fn positions(idx: Seq<usize>) -> Seq<int> {
    idx.map_values(|i: usize| i as int)
}

fn find_markers(lines: &Vec<Vec<char>>, mode: Detection, p: &Vec<char>) -> (idx: Vec<usize>)
    requires
        p@ == phrase(),
    ensures
        positions(idx@) == markers(texts(lines@), mode),
{
    let mut idx: Vec<usize> = Vec::new();
    let mut i: usize = 0;
    assert(texts(lines@).take(0) =~= Seq::empty());
    while i < lines.len()
        invariant
            i <= lines.len(),
            p@ == phrase(),
            positions(idx@) == markers(texts(lines@).take(i as int), mode),
        decreases lines.len() - i,
    {
        proof {
            let next = texts(lines@).take(i + 1);
            assert(next.drop_last() =~= texts(lines@).take(i as int));
            assert(next.last() == lines@[i as int]@);
        }
        let ghost before = positions(idx@);
        if marker_line(&lines[i], mode, p) {
            idx.push(i);
            assert(positions(idx@) =~= before.push(i as int));
        }
        i = i + 1;
    }
    assert(texts(lines@).take(lines@.len() as int) =~= texts(lines@));
    idx
}

/// Finds the marker lines among the cleaned lines: by the shell styles, and
/// by the fallback rule where those find fewer than two.
pub fn find_hooks(lines: &Vec<Vec<char>>) -> (idx: Vec<usize>)
    ensures
        positions(idx@) == hook_indices(texts(lines@)),
        forall|k: int| 0 <= k < idx@.len() ==> #[trigger] idx@[k] < lines@.len(),
        forall|j: int, k: int| 0 <= j < k < idx@.len() ==> idx@[j] < idx@[k],
{
    let p = marker_phrase();
    let strict = find_markers(lines, Detection::Strict, &p);
    let idx = if strict.len() >= 2 {
        strict
    } else {
        find_markers(lines, Detection::Generic, &p)
    };
    proof {
        lemma_markers(texts(lines@), Detection::Strict);
        lemma_markers(texts(lines@), Detection::Generic);
        assert forall|k: int| 0 <= k < idx@.len() implies #[trigger] idx@[k] < lines@.len() by {
            assert(positions(idx@)[k] == idx@[k]);
        }
        assert forall|j: int, k: int| 0 <= j < k < idx@.len() implies idx@[j] < idx@[k] by {
            assert(positions(idx@)[j] == idx@[j]);
            assert(positions(idx@)[k] == idx@[k]);
        }
    }
    idx
}

/// Cuts a sequence of cleaned lines into blocks: one block for each pair of
/// neighbouring marker lines, holding the lines strictly between the two.
/// Fewer than two marker lines give no block.
pub fn extract_blocks_by_hooks(lines: &[String]) -> (blocks: Vec<Vec<String>>)
    ensures
        blocks.deep_view() == hook_blocks(lines.deep_view()),
{
    let cl = char_lines(lines);
    let idx = find_hooks(&cl);
    let mut blocks: Vec<Vec<String>> = Vec::new();
    if idx.len() < 2 {
        assert(blocks.deep_view() =~= hook_blocks(lines.deep_view()));
        return blocks;
    }
    let n = idx.len();
    let mut k: usize = 0;
    while k + 1 < n
        invariant
            2 <= n == idx@.len(),
            k + 1 <= n,
            texts(cl@) == lines.deep_view(),
            positions(idx@) == hook_indices(texts(cl@)),
            forall|m: int| 0 <= m < idx@.len() ==> #[trigger] idx@[m] < cl@.len(),
            forall|j: int, m: int| 0 <= j < m < idx@.len() ==> idx@[j] < idx@[m],
            blocks@.len() == k,
            forall|m: int|
                0 <= m < k ==> (#[trigger] blocks@[m]).deep_view() == hook_blocks(
                    lines.deep_view(),
                )[m],
        decreases idx@.len() - k,
    {
        let a = idx[k];
        let b = idx[k + 1];
        proof {
            assert(positions(idx@)[k as int] == a);
            assert(positions(idx@)[k + 1] == b);
        }
        let block = string_lines(&cl, a + 1, b);
        blocks.push(block);
        k = k + 1;
    }
    assert(blocks.deep_view() =~= hook_blocks(lines.deep_view()));
    blocks
}

/// Inserting a line adds its index to the marker indices where it is a
/// marker, and no other.
pub proof fn lemma_markers_insert(lines: Seq<Seq<char>>, at: int, l: Seq<char>, mode: Detection)
    requires
        0 <= at <= lines.len(),
    ensures
        markers(lines.insert(at, l), mode).len() == markers(lines, mode).len() + if is_marker(
            l,
            mode,
        ) {
            1int
        } else {
            0int
        },
    decreases lines.len(),
{
    let grown = lines.insert(at, l);
    if at == lines.len() {
        assert(grown.drop_last() =~= lines);
    } else {
        let t = lines.drop_last();
        lemma_markers_insert(t, at, l, mode);
        assert(grown.drop_last() =~= t.insert(at, l));
        assert(grown.last() == lines.last());
    }
}

/// Adding a marker line in one of the shell styles anywhere in a transcript
/// never lowers the number of blocks, unless the transcript was segmented by
/// the fallback rule into two blocks or more and the new line is what gives
/// the shell styles their second marker.
pub proof fn marker_line_keeps_blocks(lines: Seq<Seq<char>>, at: int, l: Seq<char>)
    requires
        0 <= at <= lines.len(),
        is_strict_marker(l),
        !(markers(lines, Detection::Strict).len() == 1 && markers(lines, Detection::Generic).len()
            >= 3),
    ensures
        hook_blocks(lines.insert(at, l)).len() >= hook_blocks(lines).len(),
{
    lemma_strict_is_generic(l);
    lemma_markers_insert(lines, at, l, Detection::Strict);
    lemma_markers_insert(lines, at, l, Detection::Generic);
}

/// Adding a line that holds the phrase without being a marker in one of the
/// shell styles never lowers the number of blocks.
pub proof fn generic_marker_line_keeps_blocks(lines: Seq<Seq<char>>, at: int, l: Seq<char>)
    requires
        0 <= at <= lines.len(),
        is_generic_marker(l),
        !is_strict_marker(l),
    ensures
        hook_blocks(lines.insert(at, l)).len() >= hook_blocks(lines).len(),
{
    lemma_markers_insert(lines, at, l, Detection::Strict);
    lemma_markers_insert(lines, at, l, Detection::Generic);
}

} // verus!
