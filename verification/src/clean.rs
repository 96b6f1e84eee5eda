//! The control-sequence cleaner: removes terminal control noise from text and
//! leaves what a reader of the terminal would call printed.

use crate::text::{
    from_chars, lemma_run_end, lemma_trim, lemma_trim_of_trimmed, lemma_without,
    lemma_without_none, remove_class, run_end, scan_run, to_chars, trim, trim_chars, without,
    CharClass, BACKSPACE, BEL, ESC, RETURN_GLYPH,
};
use vstd::prelude::*;

verus! {

/// The kinds of escape sequence that the cleaner removes, in the order in
/// which it removes them.
#[derive(Clone, Copy, Debug, PartialEq, Eq)]
pub enum Escape {
    /// `ESC [`, parameter bytes, intermediate bytes, one final byte.
    ControlSequence,
    /// `ESC ]`, a body without bell and escape, then a bell or `ESC \`.
    OperatingSystemCommand,
    /// `ESC` and one final byte out of `@` to `Z`, `\`, `^`, `_`.
    Short,
    /// `ESC`, one intermediate byte, one final byte.
    TwoByte,
    /// `ESC` and one of `=`, `>`, `<`.
    ModeSwitch,
}

/// The length of the escape sequence of the given kind that starts at
/// position `i`; 0 where none starts there.
pub open spec fn escape_len(kind: Escape, s: Seq<char>, i: int) -> int {
    if i < 0 || i + 1 >= s.len() || s[i] != ESC {
        0
    } else {
        match kind {
            Escape::ControlSequence => {
                let p = run_end(s, i + 2, CharClass::Parameter);
                let q = run_end(s, p, CharClass::Intermediate);
                if s[i + 1] == '[' && q < s.len() && CharClass::Final.has(s[q]) {
                    q + 1 - i
                } else {
                    0
                }
            },
            Escape::OperatingSystemCommand => {
                let p = run_end(s, i + 2, CharClass::TitleBody);
                if s[i + 1] != ']' {
                    0
                } else if p < s.len() && s[p] == BEL {
                    p + 1 - i
                } else if p + 1 < s.len() && s[p] == ESC && s[p + 1] == '\\' {
                    p + 2 - i
                } else {
                    0
                }
            },
            Escape::Short => if CharClass::ShortFinal.has(s[i + 1]) {
                2
            } else {
                0
            },
            Escape::TwoByte => if i + 2 < s.len() && CharClass::Intermediate.has(s[i + 1])
                && CharClass::Final.has(s[i + 2]) {
                3
            } else {
                0
            },
            Escape::ModeSwitch => if CharClass::ModeSwitch.has(s[i + 1]) {
                2
            } else {
                0
            },
        }
    }
}

/// An escape sequence starts with the escape character and ends inside the
/// text.
pub proof fn lemma_escape_len(kind: Escape, s: Seq<char>, i: int)
    ensures
        0 <= escape_len(kind, s, i),
        escape_len(kind, s, i) > 0 ==> 0 <= i && i + escape_len(kind, s, i) <= s.len() && s[i]
            == ESC && escape_len(kind, s, i) >= 2,
{
    if 0 <= i && i + 1 < s.len() {
        lemma_run_end(s, i + 2, CharClass::Parameter);
        lemma_run_end(s, run_end(s, i + 2, CharClass::Parameter), CharClass::Intermediate);
        lemma_run_end(s, i + 2, CharClass::TitleBody);
    }
}

/// Measures the escape sequence of the given kind that starts at `i`.
pub fn escape_at(kind: Escape, v: &Vec<char>, i: usize) -> (n: usize)
    requires
        i < v.len(),
    ensures
        n == escape_len(kind, v@, i as int),
        i + n <= v.len(),
{
    let len = v.len();
    if len - i < 2 || v[i] != ESC {
        return 0;
    }
    proof {
        lemma_escape_len(kind, v@, i as int);
    }
    let next = v[i + 1];
    match kind {
        Escape::ControlSequence => {
            let p = scan_run(v, i + 2, CharClass::Parameter);
            let q = scan_run(v, p, CharClass::Intermediate);
            if next == '[' && q < len && CharClass::Final.contains(v[q]) {
                q + 1 - i
            } else {
                0
            }
        },
        Escape::OperatingSystemCommand => {
            let p = scan_run(v, i + 2, CharClass::TitleBody);
            if next != ']' {
                0
            } else if p < len && v[p] == BEL {
                p + 1 - i
            } else if len - p > 1 && v[p] == ESC && v[p + 1] == '\\' {
                p + 2 - i
            } else {
                0
            }
        },
        Escape::Short => if CharClass::ShortFinal.contains(next) {
            2
        } else {
            0
        },
        Escape::TwoByte => if len - i > 2 && CharClass::Intermediate.contains(next)
            && CharClass::Final.contains(v[i + 2]) {
            3
        } else {
            0
        },
        Escape::ModeSwitch => if CharClass::ModeSwitch.contains(next) {
            2
        } else {
            0
        },
    }
}

/// The text from position `i` on without the escape sequences of the given
/// kind, found from left to right: where one starts it is skipped whole, and
/// the search goes on behind it.
pub open spec fn strip_from(kind: Escape, s: Seq<char>, i: int) -> Seq<char>
    decreases s.len() - i,
{
    if i < 0 || i >= s.len() {
        Seq::empty()
    } else if escape_len(kind, s, i) > 0 {
        strip_from(kind, s, i + escape_len(kind, s, i))
    } else {
        seq![s[i]] + strip_from(kind, s, i + 1)
    }
}

/// The text without the escape sequences of the given kind.
pub open spec fn strip_escapes(kind: Escape, s: Seq<char>) -> Seq<char> {
    strip_from(kind, s, 0)
}

/// Removes the escape sequences of the given kind.
pub fn strip(kind: Escape, v: &Vec<char>) -> (r: Vec<char>)
    ensures
        r@ == strip_escapes(kind, v@),
{
    let mut r: Vec<char> = Vec::new();
    let mut i: usize = 0;
    while i < v.len()
        invariant
            i <= v.len(),
            r@ + strip_from(kind, v@, i as int) == strip_escapes(kind, v@),
        decreases v.len() - i,
    {
        let n = escape_at(kind, v, i);
        if n > 0 {
            i = i + n;
        } else {
            let ghost before = r@;
            r.push(v[i]);
            assert(r@ + strip_from(kind, v@, i + 1) =~= before + strip_from(kind, v@, i as int));
            i = i + 1;
        }
    }
    assert(r@ + strip_from(kind, v@, i as int) =~= r@);
    r
}

/// The text from position `i` on with each carriage return that stands
/// directly before a line feed dropped.
pub open spec fn crlf_from(s: Seq<char>, i: int) -> Seq<char>
    decreases s.len() - i,
{
    if i < 0 || i >= s.len() {
        Seq::empty()
    } else if s[i] == '\r' && i + 1 < s.len() && s[i + 1] == '\n' {
        crlf_from(s, i + 1)
    } else {
        seq![s[i]] + crlf_from(s, i + 1)
    }
}

/// The text with its line endings normalised: a carriage return before a line
/// feed is dropped, and every other carriage return becomes a line feed.
pub open spec fn normalize_returns(s: Seq<char>) -> Seq<char> {
    crlf_from(s, 0).map_values(
        |c: char|
            if c == '\r' {
                '\n'
            } else {
                c
            },
    )
}

/// Normalises the line endings of the text.
pub fn normalize(v: &Vec<char>) -> (r: Vec<char>)
    ensures
        r@ == normalize_returns(v@),
{
    let mut r: Vec<char> = Vec::new();
    let mut i: usize = 0;
    let ghost mut kept: Seq<char> = Seq::empty();
    while i < v.len()
        invariant
            i <= v.len(),
            kept + crlf_from(v@, i as int) == crlf_from(v@, 0),
            r@ == kept.map_values(
                |c: char|
                    if c == '\r' {
                        '\n'
                    } else {
                        c
                    },
            ),
        decreases v.len() - i,
    {
        let c = v[i];
        if c == '\r' && v.len() - i > 1 && v[i + 1] == '\n' {
        } else {
            proof {
                assert(kept.push(c) + crlf_from(v@, i + 1) =~= kept + crlf_from(v@, i as int));
                kept = kept.push(c);
            }
            if c == '\r' {
                r.push('\n');
            } else {
                r.push(c);
            }
        }
        i = i + 1;
    }
    assert(kept + crlf_from(v@, i as int) =~= kept);
    r
}

/// The text after its backspaces have done their work, read from left to
/// right: a backspace deletes the character kept last, and is dropped where
/// nothing is left to delete.
pub open spec fn resolve_backspaces(s: Seq<char>) -> Seq<char>
    decreases s.len(),
{
    if s.len() == 0 {
        Seq::empty()
    } else {
        let kept = resolve_backspaces(s.drop_last());
        if s.last() != BACKSPACE {
            kept.push(s.last())
        } else if kept.len() > 0 {
            kept.drop_last()
        } else {
            kept
        }
    }
}

/// Applies the backspaces of the text.
pub fn backspaced(v: &Vec<char>) -> (r: Vec<char>)
    ensures
        r@ == resolve_backspaces(v@),
{
    let mut r: Vec<char> = Vec::new();
    let mut i: usize = 0;
    while i < v.len()
        invariant
            i <= v.len(),
            r@ == resolve_backspaces(v@.take(i as int)),
        decreases v.len() - i,
    {
        assert(v@.take(i + 1).drop_last() =~= v@.take(i as int));
        if v[i] != BACKSPACE {
            r.push(v[i]);
        } else {
            r.pop();
        }
        i = i + 1;
    }
    assert(v@.take(v@.len() as int) =~= v@);
    r
}

/// What the cleaner makes of a text, before any trimming: the five kinds of
/// escape sequence go, one kind after the other; line endings are normalised;
/// return glyphs go; backspaces are applied; the control characters that are
/// left go.
pub open spec fn cleaned(s: Seq<char>) -> Seq<char> {
    let s1 = strip_escapes(Escape::ControlSequence, s);
    let s2 = strip_escapes(Escape::OperatingSystemCommand, s1);
    let s3 = strip_escapes(Escape::Short, s2);
    let s4 = strip_escapes(Escape::TwoByte, s3);
    let s5 = strip_escapes(Escape::ModeSwitch, s4);
    let s6 = normalize_returns(s5);
    let s7 = without(s6, CharClass::ReturnGlyph);
    let s8 = resolve_backspaces(s7);
    without(s8, CharClass::Control)
}

/// What the cleaner makes of a single line.
pub open spec fn clean_line_spec(line: Seq<char>) -> Seq<char> {
    cleaned(line)
}

/// What the cleaner makes of a whole text.
pub open spec fn clean_text_spec(text: Seq<char>) -> Seq<char> {
    trim(cleaned(text))
}

/// Cleans a text held as characters, without trimming it.
pub fn clean_chars(v: &Vec<char>) -> (r: Vec<char>)
    ensures
        r@ == cleaned(v@),
{
    let s1 = strip(Escape::ControlSequence, v);
    let s2 = strip(Escape::OperatingSystemCommand, &s1);
    let s3 = strip(Escape::Short, &s2);
    let s4 = strip(Escape::TwoByte, &s3);
    let s5 = strip(Escape::ModeSwitch, &s4);
    let s6 = normalize(&s5);
    let s7 = remove_class(&s6, CharClass::ReturnGlyph);
    let s8 = backspaced(&s7);
    remove_class(&s8, CharClass::Control)
}

/// Applies the backspaces of `s`: each deletes the character kept before it.
pub fn strip_backspaces(s: &str) -> (r: String)
    ensures
        r@ == resolve_backspaces(s@),
{
    let v = to_chars(s);
    let r = backspaced(&v);
    from_chars(&r)
}

/// Cleans one line of a transcript. The result is not trimmed, so that the
/// line keeps its place and its indentation within its block.
pub fn clean_line(line: &str) -> (r: String)
    ensures
        r@ == clean_line_spec(line@),
{
    let v = to_chars(line);
    let r = clean_chars(&v);
    from_chars(&r)
}

/// Cleans a whole text and trims the result.
pub fn clean_text(text: &str) -> (r: String)
    ensures
        r@ == clean_text_spec(text@),
{
    let v = to_chars(text);
    let c = clean_chars(&v);
    let r = trim_chars(&c);
    from_chars(&r)
}

/// Whether the text holds nothing for the cleaner to act on: no control
/// character (the escape character and the backspace are two), no carriage
/// return and no return glyph.
pub open spec fn is_clean(s: Seq<char>) -> bool {
    forall|i: int|
        0 <= i < s.len() ==> !CharClass::Control.has(#[trigger] s[i]) && s[i] != '\r' && s[i]
            != RETURN_GLYPH
}

/// Where no escape character stands, no escape sequence is found, and the
/// text stays as it is.
pub proof fn lemma_strip_without_escape(kind: Escape, s: Seq<char>, i: int)
    requires
        0 <= i <= s.len(),
        forall|k: int| 0 <= k < s.len() ==> #[trigger] s[k] != ESC,
    ensures
        strip_from(kind, s, i) == s.skip(i),
    decreases s.len() - i,
{
    if i < s.len() {
        lemma_strip_without_escape(kind, s, i + 1);
        assert(seq![s[i]] + s.skip(i + 1) =~= s.skip(i));
    } else {
        assert(s.skip(i) =~= Seq::empty());
    }
}

/// Where no carriage return stands, line endings are as they should be.
pub proof fn lemma_crlf_without_return(s: Seq<char>, i: int)
    requires
        0 <= i <= s.len(),
        forall|k: int| 0 <= k < s.len() ==> #[trigger] s[k] != '\r',
    ensures
        crlf_from(s, i) == s.skip(i),
    decreases s.len() - i,
{
    if i < s.len() {
        lemma_crlf_without_return(s, i + 1);
        assert(seq![s[i]] + s.skip(i + 1) =~= s.skip(i));
    } else {
        assert(s.skip(i) =~= Seq::empty());
    }
}

/// Dropping a carriage return keeps every other character of the text.
pub proof fn lemma_crlf_from_keeps(s: Seq<char>, i: int)
    requires
        0 <= i <= s.len(),
    ensures
        forall|j: int|
            0 <= j < crlf_from(s, i).len() ==> s.contains(#[trigger] crlf_from(s, i)[j]),
    decreases s.len() - i,
{
    if i < s.len() {
        lemma_crlf_from_keeps(s, i + 1);
        let r = crlf_from(s, i);
        let rest = crlf_from(s, i + 1);
        assert forall|j: int| 0 <= j < r.len() implies s.contains(#[trigger] r[j]) by {
            if r.len() == rest.len() {
                assert(r[j] == rest[j]);
            } else if j == 0 {
                assert(r[j] == s[i]);
            } else {
                assert(r[j] == rest[j - 1]);
            }
        }
    }
}

/// Normalised line endings hold no carriage return, and besides line feeds
/// only characters of the text.
pub proof fn lemma_normalize_returns(s: Seq<char>)
    ensures
        forall|j: int|
            0 <= j < normalize_returns(s).len() ==> {
                let c = #[trigger] normalize_returns(s)[j];
                c != '\r' && (c == '\n' || s.contains(c))
            },
{
    lemma_crlf_from_keeps(s, 0);
}

/// Where no backspace stands, nothing is deleted.
pub proof fn lemma_backspaces_none(s: Seq<char>)
    requires
        forall|k: int| 0 <= k < s.len() ==> #[trigger] s[k] != BACKSPACE,
    ensures
        resolve_backspaces(s) == s,
    decreases s.len(),
{
    if s.len() > 0 {
        let t = s.drop_last();
        lemma_backspaces_none(t);
        assert(t.push(s.last()) =~= s);
    }
}

/// Backspaces only delete: what is left are characters of the text, and no
/// more of them than the text has.
pub proof fn lemma_backspaces_keep(s: Seq<char>)
    ensures
        resolve_backspaces(s).len() <= s.len(),
        forall|j: int|
            0 <= j < resolve_backspaces(s).len() ==> s.contains(
                #[trigger] resolve_backspaces(s)[j],
            ),
    decreases s.len(),
{
    if s.len() > 0 {
        let t = s.drop_last();
        lemma_backspaces_keep(t);
        let kept = resolve_backspaces(t);
        let r = resolve_backspaces(s);
        assert forall|j: int| 0 <= j < r.len() implies s.contains(#[trigger] r[j]) by {
            if j < kept.len() {
                assert(r[j] == kept[j]);
                let k = choose|k: int| 0 <= k < t.len() && t[k] == kept[j];
                assert(s[k] == r[j]);
            } else {
                assert(s[s.len() - 1] == r[j]);
            }
        }
    }
}

/// Each step of the cleaner leaves a clean text as it is.
pub proof fn lemma_cleaned_of_clean(s: Seq<char>)
    requires
        is_clean(s),
    ensures
        cleaned(s) == s,
{
    assert forall|k: int| 0 <= k < s.len() implies #[trigger] s[k] != ESC && s[k] != BACKSPACE
        && !CharClass::ReturnGlyph.has(s[k]) by {
        assert(!CharClass::Control.has(s[k]));
    }
    assert(s.skip(0) =~= s);
    lemma_strip_without_escape(Escape::ControlSequence, s, 0);
    lemma_strip_without_escape(Escape::OperatingSystemCommand, s, 0);
    lemma_strip_without_escape(Escape::Short, s, 0);
    lemma_strip_without_escape(Escape::TwoByte, s, 0);
    lemma_strip_without_escape(Escape::ModeSwitch, s, 0);
    lemma_crlf_without_return(s, 0);
    assert(normalize_returns(s) =~= s);
    lemma_without_none(s, CharClass::ReturnGlyph);
    lemma_backspaces_none(s);
    lemma_without_none(s, CharClass::Control);
}

/// What the cleaner returns is clean.
pub proof fn lemma_cleaned_is_clean(s: Seq<char>)
    ensures
        is_clean(cleaned(s)),
{
    let s1 = strip_escapes(Escape::ControlSequence, s);
    let s2 = strip_escapes(Escape::OperatingSystemCommand, s1);
    let s3 = strip_escapes(Escape::Short, s2);
    let s4 = strip_escapes(Escape::TwoByte, s3);
    let s5 = strip_escapes(Escape::ModeSwitch, s4);
    let s6 = normalize_returns(s5);
    let s7 = without(s6, CharClass::ReturnGlyph);
    let s8 = resolve_backspaces(s7);
    let s9 = without(s8, CharClass::Control);
    lemma_normalize_returns(s5);
    lemma_without(s6, CharClass::ReturnGlyph);
    lemma_backspaces_keep(s7);
    lemma_without(s8, CharClass::Control);
    assert forall|i: int| 0 <= i < s9.len() implies !CharClass::Control.has(#[trigger] s9[i])
        && s9[i] != '\r' && s9[i] != RETURN_GLYPH by {
        let c = s9[i];
        assert(s8.contains(c));
        let i8 = choose|k: int| 0 <= k < s8.len() && s8[k] == c;
        assert(s7.contains(s8[i8]));
        let i7 = choose|k: int| 0 <= k < s7.len() && s7[k] == c;
        assert(!CharClass::ReturnGlyph.has(s7[i7]));
        assert(s6.contains(s7[i7]));
        let i6 = choose|k: int| 0 <= k < s6.len() && s6[k] == c;
        assert(s6[i6] != '\r');
    }
}

/// Cleaning a line that was cleaned before returns it unchanged.
pub proof fn clean_line_idempotent(line: Seq<char>)
    ensures
        clean_line_spec(clean_line_spec(line)) == clean_line_spec(line),
{
    lemma_cleaned_is_clean(line);
    lemma_cleaned_of_clean(cleaned(line));
}

/// Cleaning a text that was cleaned before returns it unchanged.
pub proof fn clean_text_idempotent(text: Seq<char>)
    ensures
        clean_text_spec(clean_text_spec(text)) == clean_text_spec(text),
{
    let c = cleaned(text);
    let t = trim(c);
    lemma_cleaned_is_clean(text);
    lemma_trim(c);
    let (a, b) = choose|a: int, b: int| 0 <= a <= b <= c.len() && t == #[trigger] c.subrange(a, b);
    assert forall|i: int| 0 <= i < t.len() implies !CharClass::Control.has(#[trigger] t[i])
        && t[i] != '\r' && t[i] != RETURN_GLYPH by {
        assert(t[i] == c[a + i]);
    }
    lemma_cleaned_of_clean(t);
    lemma_trim_of_trimmed(t);
}

} // verus!
