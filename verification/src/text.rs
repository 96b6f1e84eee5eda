//! Character-level building blocks: character classes, maximal runs, literal
//! matching, and the conversions between strings and character vectors.

use vstd::prelude::*;

verus! {

/// The escape character that introduces every terminal control sequence.
pub const ESC: char = '\u{1b}';

/// The bell character, one of the two terminators of a title sequence.
pub const BEL: char = '\u{7}';

/// The backspace character.
pub const BACKSPACE: char = '\u{8}';

/// The visible return glyph that some logging tools insert for Enter.
pub const RETURN_GLYPH: char = '\u{23ce}';

/// Whether `c` is white space: the code points with the Unicode property
/// `White_Space`.
pub open spec fn is_whitespace(c: char) -> bool {
    ||| '\u{9}' <= c <= '\u{d}'
    ||| c == ' '
    ||| c == '\u{85}'
    ||| c == '\u{a0}'
    ||| c == '\u{1680}'
    ||| '\u{2000}' <= c <= '\u{200a}'
    ||| c == '\u{2028}'
    ||| c == '\u{2029}'
    ||| c == '\u{202f}'
    ||| c == '\u{205f}'
    ||| c == '\u{3000}'
}

/// Tests whether `c` is white space.
pub fn whitespace(c: char) -> (b: bool)
    ensures
        b == is_whitespace(c),
{
    ('\u{9}' <= c && c <= '\u{d}') || c == ' ' || c == '\u{85}' || c == '\u{a0}' || c
        == '\u{1680}' || ('\u{2000}' <= c && c <= '\u{200a}') || c == '\u{2028}' || c
        == '\u{2029}' || c == '\u{202f}' || c == '\u{205f}' || c == '\u{3000}'
}

/// Whether `c` is an ASCII letter, an ASCII digit or an underscore.
pub open spec fn is_word_char(c: char) -> bool {
    ||| 'a' <= c <= 'z'
    ||| 'A' <= c <= 'Z'
    ||| '0' <= c <= '9'
    ||| c == '_'
}

/// Tests whether `c` is an ASCII letter, an ASCII digit or an underscore.
pub fn word_char(c: char) -> (b: bool)
    ensures
        b == is_word_char(c),
{
    ('a' <= c && c <= 'z') || ('A' <= c && c <= 'Z') || ('0' <= c && c <= '9') || c == '_'
}

/// The sets of characters that the transcript grammar is built from.
#[derive(Clone, Copy, Debug, PartialEq, Eq)]
pub enum CharClass {
    /// Unicode white space.
    Whitespace,
    /// Anything but white space.
    Visible,
    /// Anything but a line feed.
    LineBody,
    /// A space or a tab.
    Blank,
    /// The ASCII hyphen.
    Dash,
    /// An ASCII letter, an ASCII digit or an underscore.
    Word,
    /// Anything that is neither a word character nor a blank.
    Symbol,
    /// Parameter bytes of a control sequence, `0x30..=0x3F`.
    Parameter,
    /// Intermediate bytes of a control sequence, `0x20..=0x2F`.
    Intermediate,
    /// Final bytes of a control sequence, `0x40..=0x7E`.
    Final,
    /// Final bytes of a two-character escape: `@` to `Z`, `\`, `^` and `_`.
    ShortFinal,
    /// The mode-switch characters `=`, `>` and `<`.
    ModeSwitch,
    /// Anything but the bell and the escape character.
    TitleBody,
    /// Anything but a closing square bracket.
    TagBody,
    /// Single control characters: `0x00..=0x08`, `0x0B`, `0x0C`, `0x0E..=0x1F`.
    Control,
    /// The visible return glyph.
    ReturnGlyph,
}

impl CharClass {
    /// Whether `c` belongs to the class.
    pub open spec fn has(self, c: char) -> bool {
        match self {
            CharClass::Whitespace => is_whitespace(c),
            CharClass::Visible => !is_whitespace(c),
            CharClass::LineBody => c != '\n',
            CharClass::Blank => c == ' ' || c == '\t',
            CharClass::Dash => c == '-',
            CharClass::Word => is_word_char(c),
            CharClass::Symbol => !is_word_char(c) && c != ' ' && c != '\t',
            CharClass::Parameter => '0' <= c <= '?',
            CharClass::Intermediate => ' ' <= c <= '/',
            CharClass::Final => '@' <= c <= '~',
            CharClass::ShortFinal => '@' <= c <= 'Z' || c == '\\' || c == '^' || c == '_',
            CharClass::ModeSwitch => c == '=' || c == '>' || c == '<',
            CharClass::TitleBody => c != BEL && c != ESC,
            CharClass::TagBody => c != ']',
            CharClass::Control => {
                ||| c <= '\u{8}'
                ||| c == '\u{b}'
                ||| c == '\u{c}'
                ||| '\u{e}' <= c <= '\u{1f}'
            },
            CharClass::ReturnGlyph => c == RETURN_GLYPH,
        }
    }

    /// Tests membership of `c` in the class.
    pub fn contains(self, c: char) -> (b: bool)
        ensures
            b == self.has(c),
    {
        match self {
            CharClass::Whitespace => whitespace(c),
            CharClass::Visible => !whitespace(c),
            CharClass::LineBody => c != '\n',
            CharClass::Blank => c == ' ' || c == '\t',
            CharClass::Dash => c == '-',
            CharClass::Word => word_char(c),
            CharClass::Symbol => !word_char(c) && c != ' ' && c != '\t',
            CharClass::Parameter => '0' <= c && c <= '?',
            CharClass::Intermediate => ' ' <= c && c <= '/',
            CharClass::Final => '@' <= c && c <= '~',
            CharClass::ShortFinal => ('@' <= c && c <= 'Z') || c == '\\' || c == '^' || c == '_',
            CharClass::ModeSwitch => c == '=' || c == '>' || c == '<',
            CharClass::TitleBody => c != BEL && c != ESC,
            CharClass::TagBody => c != ']',
            CharClass::Control => {
                c <= '\u{8}' || c == '\u{b}' || c == '\u{c}' || ('\u{e}' <= c && c <= '\u{1f}')
            },
            CharClass::ReturnGlyph => c == RETURN_GLYPH,
        }
    }
}

/// The position just after the longest run of `class` characters that starts
/// at `i`; `i` itself where no such character stands there.
pub open spec fn run_end(s: Seq<char>, i: int, class: CharClass) -> int
    decreases s.len() - i,
{
    if 0 <= i < s.len() && class.has(s[i]) {
        run_end(s, i + 1, class)
    } else {
        i
    }
}

/// A run ends inside the text, holds only characters of its class, and cannot
/// be extended.
pub proof fn lemma_run_end(s: Seq<char>, i: int, class: CharClass)
    requires
        0 <= i <= s.len(),
    ensures
        i <= run_end(s, i, class) <= s.len(),
        forall|k: int| i <= k < run_end(s, i, class) ==> class.has(#[trigger] s[k]),
        run_end(s, i, class) < s.len() ==> !class.has(s[run_end(s, i, class)]),
    decreases s.len() - i,
{
    if i < s.len() && class.has(s[i]) {
        lemma_run_end(s, i + 1, class);
    }
}

/// Finds the end of the run of `class` characters that starts at `i`.
pub fn scan_run(v: &Vec<char>, i: usize, class: CharClass) -> (j: usize)
    requires
        i <= v.len(),
    ensures
        j == run_end(v@, i as int, class),
        i <= j <= v.len(),
{
    let mut j: usize = i;
    while j < v.len() && class.contains(v[j])
        invariant
            i <= j <= v.len(),
            run_end(v@, i as int, class) == run_end(v@, j as int, class),
        decreases v.len() - j,
    {
        j = j + 1;
    }
    proof {
        lemma_run_end(v@, i as int, class);
    }
    j
}

/// Whether the literal `pat` stands in `s` at position `i`.
pub open spec fn has_at(s: Seq<char>, i: int, pat: Seq<char>) -> bool {
    0 <= i && i + pat.len() <= s.len() && s.subrange(i, i + pat.len()) == pat
}

/// Tests whether the literal `pat` stands in `v` at position `i`.
pub fn matches_at(v: &Vec<char>, i: usize, pat: &Vec<char>) -> (b: bool)
    ensures
        b == has_at(v@, i as int, pat@),
{
    if i > v.len() || pat.len() > v.len() - i {
        return false;
    }
    let mut k: usize = 0;
    while k < pat.len()
        invariant
            i + pat.len() <= v.len(),
            k <= pat.len(),
            forall|m: int| 0 <= m < k ==> v@[i + m] == pat@[m],
        decreases pat.len() - k,
    {
        if v[i + k] != pat[k] {
            proof {
                let sub = v@.subrange(i as int, i + pat.len());
                assert(sub[k as int] == v@[i + k]);
            }
            return false;
        }
        k = k + 1;
    }
    assert(v@.subrange(i as int, i + pat.len()) =~= pat@);
    true
}

/// Whether two character vectors hold the same text.
pub fn same_text(a: &Vec<char>, b: &Vec<char>) -> (r: bool)
    ensures
        r == (a@ == b@),
{
    if a.len() != b.len() {
        return false;
    }
    let r = matches_at(a, 0, b);
    proof {
        assert(a@.subrange(0, a@.len() as int) =~= a@);
    }
    r
}

/// The characters of a string, in order.
pub fn to_chars(s: &str) -> (v: Vec<char>)
    ensures
        v@ == s@,
{
    let mut v: Vec<char> = Vec::new();
    for c in it: s.chars()
        invariant
            v@ == it.seq().take(it.index() as int),
            it.seq() == s@,
    {
        v.push(c);
    }
    v
}

/// Appends one character to a string: `String::push` of the standard library,
/// which adds the character at the end and leaves the rest as it was.
#[verifier::external_body]
fn push_char(s: &mut String, c: char)
    ensures
        final(s)@ == old(s)@.push(c),
{
    s.push(c)
}

/// The string made of the given characters, in order.
pub fn from_chars(v: &Vec<char>) -> (s: String)
    ensures
        s@ == v@,
{
    let mut s = String::new();
    let mut i: usize = 0;
    while i < v.len()
        invariant
            i <= v.len(),
            s@ == v@.take(i as int),
        decreases v.len() - i,
    {
        push_char(&mut s, v[i]);
        assert(v@.take(i + 1) =~= v@.take(i as int).push(v@[i as int]));
        i = i + 1;
    }
    assert(v@.take(v@.len() as int) =~= v@);
    s
}

/// A copy of the characters of `v` from `from` up to `to`.
pub fn copy_range(v: &Vec<char>, from: usize, to: usize) -> (r: Vec<char>)
    requires
        from <= to <= v.len(),
    ensures
        r@ == v@.subrange(from as int, to as int),
{
    let mut r: Vec<char> = Vec::new();
    let mut i: usize = from;
    while i < to
        invariant
            from <= i <= to <= v.len(),
            r@ == v@.subrange(from as int, i as int),
        decreases to - i,
    {
        r.push(v[i]);
        assert(v@.subrange(from as int, i + 1) =~= v@.subrange(from as int, i as int).push(
            v@[i as int],
        ));
        i = i + 1;
    }
    r
}

/// Appends the characters of `tail` to `v`.
pub fn append_chars(v: &mut Vec<char>, tail: &Vec<char>)
    ensures
        final(v)@ == old(v)@ + tail@,
{
    let mut i: usize = 0;
    while i < tail.len()
        invariant
            i <= tail.len(),
            v@ == old(v)@ + tail@.take(i as int),
        decreases tail.len() - i,
    {
        v.push(tail[i]);
        assert(tail@.take(i + 1) =~= tail@.take(i as int).push(tail@[i as int]));
        i = i + 1;
    }
    assert(tail@.take(tail@.len() as int) =~= tail@);
}

/// The text without its leading white space.
pub open spec fn trim_start(s: Seq<char>) -> Seq<char> {
    s.skip(run_end(s, 0, CharClass::Whitespace))
}

/// The text without its trailing white space.
pub open spec fn trim_end(s: Seq<char>) -> Seq<char>
    decreases s.len(),
{
    if s.len() > 0 && is_whitespace(s.last()) {
        trim_end(s.drop_last())
    } else {
        s
    }
}

/// The text without its leading and trailing white space.
pub open spec fn trim(s: Seq<char>) -> Seq<char> {
    trim_end(trim_start(s))
}

/// Whether the text is empty or white space only.
pub open spec fn is_blank(s: Seq<char>) -> bool {
    forall|i: int| 0 <= i < s.len() ==> is_whitespace(#[trigger] s[i])
}

/// Whether the text neither begins nor ends with white space.
pub open spec fn is_trimmed(s: Seq<char>) -> bool {
    s.len() > 0 ==> !is_whitespace(s.first()) && !is_whitespace(s.last())
}

/// What `trim_end` keeps is a prefix of the text, and what it drops is white
/// space.
pub proof fn lemma_trim_end(s: Seq<char>)
    ensures
        trim_end(s).len() <= s.len(),
        trim_end(s) == s.take(trim_end(s).len() as int),
        trim_end(s).len() > 0 ==> !is_whitespace(trim_end(s).last()),
        forall|i: int| trim_end(s).len() <= i < s.len() ==> is_whitespace(#[trigger] s[i]),
    decreases s.len(),
{
    if s.len() > 0 && is_whitespace(s.last()) {
        let t = s.drop_last();
        lemma_trim_end(t);
        assert(t.take(trim_end(t).len() as int) =~= s.take(trim_end(t).len() as int));
        assert forall|i: int| trim_end(s).len() <= i < s.len() implies is_whitespace(
            #[trigger] s[i],
        ) by {
            if i < t.len() {
                assert(t[i] == s[i]);
            }
        }
    } else {
        assert(s.take(s.len() as int) =~= s);
    }
}

/// Trimming keeps a contiguous part of the text: the part from the first to
/// the last character that is not white space.
pub proof fn lemma_trim(s: Seq<char>)
    ensures
        is_trimmed(trim(s)),
        trim(s).len() == 0 <==> is_blank(s),
        exists|a: int, b: int| 0 <= a <= b <= s.len() && trim(s) == #[trigger] s.subrange(a, b),
{
    let a = run_end(s, 0, CharClass::Whitespace);
    lemma_run_end(s, 0, CharClass::Whitespace);
    let t = s.skip(a);
    lemma_trim_end(t);
    let n = trim_end(t).len() as int;
    assert(t.take(n) =~= s.subrange(a, a + n));
    if n > 0 {
        assert(trim(s).first() == s[a]);
        assert(!is_blank(s));
    } else {
        assert forall|i: int| 0 <= i < s.len() implies is_whitespace(#[trigger] s[i]) by {
            if i >= a {
                assert(t[i - a] == s[i]);
            }
        }
    }
}

/// A text that neither begins nor ends with white space is its own trimmed
/// form.
pub proof fn lemma_trim_of_trimmed(s: Seq<char>)
    requires
        is_trimmed(s),
    ensures
        trim(s) == s,
{
    assert(s.skip(0) =~= s);
}

/// Removes leading and trailing white space.
pub fn trim_chars(v: &Vec<char>) -> (r: Vec<char>)
    ensures
        r@ == trim(v@),
{
    let a = scan_run(v, 0, CharClass::Whitespace);
    let mut b: usize = v.len();
    assert(v@.subrange(a as int, b as int) =~= v@.skip(a as int));
    while b > a && whitespace(v[b - 1])
        invariant
            a <= b <= v.len(),
            trim_end(v@.subrange(a as int, b as int)) == trim(v@),
        decreases b,
    {
        assert(v@.subrange(a as int, b as int).drop_last() =~= v@.subrange(a as int, b - 1));
        b = b - 1;
    }
    copy_range(v, a, b)
}

/// Whether the text is empty or white space only.
pub fn blank(v: &Vec<char>) -> (b: bool)
    ensures
        b == is_blank(v@),
{
    let a = scan_run(v, 0, CharClass::Whitespace);
    proof {
        lemma_run_end(v@, 0, CharClass::Whitespace);
    }
    a == v.len()
}

/// The parts joined into one text, with `sep` between neighbours.
pub open spec fn join(parts: Seq<Seq<char>>, sep: Seq<char>) -> Seq<char>
    decreases parts.len(),
{
    if parts.len() == 0 {
        Seq::empty()
    } else if parts.len() == 1 {
        parts[0]
    } else {
        join(parts.drop_last(), sep) + sep + parts.last()
    }
}

/// The texts that a vector of character vectors holds.
pub open spec fn texts(v: Seq<Vec<char>>) -> Seq<Seq<char>> {
    v.map_values(|l: Vec<char>| l@)
}

/// Joins the parts from `from` up to `to` with `sep` between neighbours.
pub fn join_range(parts: &Vec<Vec<char>>, from: usize, to: usize, sep: &Vec<char>) -> (r: Vec<
    char,
>)
    requires
        from <= to <= parts.len(),
    ensures
        r@ == join(texts(parts@).subrange(from as int, to as int), sep@),
{
    let mut r: Vec<char> = Vec::new();
    let mut i: usize = from;
    while i < to
        invariant
            from <= i <= to <= parts.len(),
            r@ == join(texts(parts@).subrange(from as int, i as int), sep@),
        decreases to - i,
    {
        proof {
            let next = texts(parts@).subrange(from as int, i + 1);
            assert(next.drop_last() =~= texts(parts@).subrange(from as int, i as int));
            assert(next.last() == parts@[i as int]@);
        }
        if i > from {
            append_chars(&mut r, sep);
        }
        append_chars(&mut r, &parts[i]);
        i = i + 1;
    }
    r
}

/// A line without the carriage return that stood before its line feed.
pub open spec fn strip_cr(l: Seq<char>) -> Seq<char> {
    if l.len() > 0 && l.last() == '\r' {
        l.drop_last()
    } else {
        l
    }
}

/// The lines of the text from position `i` on. A line ends at a line feed,
/// which is dropped together with a carriage return directly before it; the
/// last line needs no line feed, and nothing follows a final line feed.
pub open spec fn lines_from(s: Seq<char>, i: int) -> Seq<Seq<char>>
    decreases s.len() - i,
{
    if i < 0 || i >= s.len() {
        Seq::empty()
    } else {
        let k = run_end(s, i, CharClass::LineBody);
        if k >= s.len() {
            seq![s.subrange(i, s.len() as int)]
        } else {
            proof {
                lemma_run_end(s, i, CharClass::LineBody);
            }
            seq![strip_cr(s.subrange(i, k))] + lines_from(s, k + 1)
        }
    }
}

/// The lines of the text.
pub open spec fn split_lines(s: Seq<char>) -> Seq<Seq<char>> {
    lines_from(s, 0)
}

/// Splits the text from position `start` on into lines.
pub fn lines_after(v: &Vec<char>, start: usize) -> (r: Vec<Vec<char>>)
    ensures
        texts(r@) == lines_from(v@, start as int),
{
    let mut r: Vec<Vec<char>> = Vec::new();
    let mut i: usize = start;
    assert(texts(r@) =~= Seq::empty());
    while i < v.len()
        invariant
            texts(r@) + lines_from(v@, i as int) == lines_from(v@, start as int),
        decreases v.len() - i,
    {
        let k = scan_run(v, i, CharClass::LineBody);
        let ghost before = texts(r@);
        if k >= v.len() {
            let line = copy_range(v, i, k);
            r.push(line);
            assert(texts(r@) =~= before + seq![v@.subrange(i as int, v@.len() as int)]);
            i = v.len();
        } else {
            let end = if k > i && v[k - 1] == '\r' {
                k - 1
            } else {
                k
            };
            let line = copy_range(v, i, end);
            proof {
                let l = v@.subrange(i as int, k as int);
                if k > i && v@[k - 1] == '\r' {
                    assert(l.last() == '\r');
                    assert(l.drop_last() =~= v@.subrange(i as int, end as int));
                } else if l.len() > 0 {
                    assert(l.last() == v@[k - 1]);
                }
                assert(line@ == strip_cr(l));
            }
            r.push(line);
            assert(texts(r@) =~= before + seq![strip_cr(v@.subrange(i as int, k as int))]);
            i = k + 1;
        }
    }
    assert(lines_from(v@, i as int) =~= Seq::empty());
    r
}

/// The tokens of the text from position `i` on: the maximal runs of
/// characters that are not white space.
pub open spec fn tokens_from(s: Seq<char>, i: int) -> Seq<Seq<char>>
    decreases s.len() - i,
{
    let a = run_end(s, i, CharClass::Whitespace);
    if i < 0 || a >= s.len() {
        Seq::empty()
    } else {
        let b = run_end(s, a, CharClass::Visible);
        proof {
            lemma_run_end(s, i, CharClass::Whitespace);
            lemma_run_end(s, a, CharClass::Visible);
        }
        seq![s.subrange(a, b)] + tokens_from(s, b)
    }
}

/// The tokens of the text: what white space separates.
pub open spec fn split_tokens(s: Seq<char>) -> Seq<Seq<char>> {
    tokens_from(s, 0)
}

/// Splits the text at white space.
pub fn tokens(v: &Vec<char>) -> (r: Vec<Vec<char>>)
    ensures
        texts(r@) == split_tokens(v@),
{
    let mut r: Vec<Vec<char>> = Vec::new();
    let mut i: usize = 0;
    assert(texts(r@) =~= Seq::empty());
    loop
        invariant
            i <= v.len(),
            texts(r@) + tokens_from(v@, i as int) == split_tokens(v@),
        decreases v.len() - i,
    {
        let a = scan_run(v, i, CharClass::Whitespace);
        if a >= v.len() {
            assert(tokens_from(v@, i as int) =~= Seq::empty());
            return r;
        }
        let b = scan_run(v, a, CharClass::Visible);
        proof {
            lemma_run_end(v@, i as int, CharClass::Whitespace);
            lemma_run_end(v@, a as int, CharClass::Visible);
        }
        let ghost before = texts(r@);
        let token = copy_range(v, a, b);
        r.push(token);
        assert(texts(r@) =~= before + seq![v@.subrange(a as int, b as int)]);
        i = b;
    }
}

/// The lower-case form of an ASCII capital letter; any other character as it
/// is.
pub open spec fn lower(c: char) -> char {
    if 'A' <= c <= 'Z' {
        ((c as u8) + 32) as char
    } else {
        c
    }
}

/// The text with its ASCII capital letters made lower case.
pub open spec fn ascii_lower(s: Seq<char>) -> Seq<char> {
    s.map_values(|c: char| lower(c))
}

/// Makes the ASCII capital letters of the text lower case.
pub fn to_ascii_lower(v: &Vec<char>) -> (r: Vec<char>)
    ensures
        r@ == ascii_lower(v@),
{
    let mut r: Vec<char> = Vec::new();
    let mut i: usize = 0;
    while i < v.len()
        invariant
            i <= v.len(),
            r@ == ascii_lower(v@.take(i as int)),
        decreases v.len() - i,
    {
        let c = v[i];
        let l = if 'A' <= c && c <= 'Z' {
            ((c as u8) + 32) as char
        } else {
            c
        };
        r.push(l);
        assert(ascii_lower(v@.take(i + 1)) =~= ascii_lower(v@.take(i as int)).push(lower(c)));
        i = i + 1;
    }
    assert(v@.take(v@.len() as int) =~= v@);
    r
}

/// Whether the character `c` occurs in the text.
pub fn has_char(v: &Vec<char>, c: char) -> (b: bool)
    ensures
        b == v@.contains(c),
{
    let mut i: usize = 0;
    while i < v.len()
        invariant
            i <= v.len(),
            forall|k: int| 0 <= k < i ==> v@[k] != c,
        decreases v.len() - i,
    {
        if v[i] == c {
            return true;
        }
        i = i + 1;
    }
    false
}

/// The text without the characters of `class`.
pub open spec fn without(s: Seq<char>, class: CharClass) -> Seq<char> {
    s.filter(|c: char| !class.has(c))
}

/// Removing a class one character at a time: the last character goes if it
/// belongs to the class and stays otherwise.
pub proof fn lemma_without_push(s: Seq<char>, c: char, class: CharClass)
    ensures
        without(s.push(c), class) == if class.has(c) {
            without(s, class)
        } else {
            without(s, class).push(c)
        },
{
    s.lemma_filter_push(c, |c: char| !class.has(c));
}

/// What is left holds no character of the class, and only characters of the
/// text.
pub proof fn lemma_without(s: Seq<char>, class: CharClass)
    ensures
        without(s, class).len() <= s.len(),
        forall|i: int| 0 <= i < without(s, class).len() ==> !class.has(#[trigger] without(s, class)[i]),
        forall|i: int|
            0 <= i < without(s, class).len() ==> s.contains(#[trigger] without(s, class)[i]),
    decreases s.len(),
{
    if s.len() == 0 {
        lemma_without_none(s, class);
    } else {
        let t = s.drop_last();
        lemma_without(t, class);
        assert(t.push(s.last()) =~= s);
        lemma_without_push(t, s.last(), class);
        let w = without(s, class);
        assert forall|i: int| 0 <= i < w.len() implies s.contains(#[trigger] w[i]) by {
            if i < without(t, class).len() {
                let k = choose|k: int| 0 <= k < t.len() && t[k] == without(t, class)[i];
                assert(s[k] == w[i]);
            } else {
                assert(s[s.len() - 1] == w[i]);
            }
        }
    }
}

/// A text that holds no character of the class is left as it is.
pub proof fn lemma_without_none(s: Seq<char>, class: CharClass)
    requires
        forall|i: int| 0 <= i < s.len() ==> !class.has(#[trigger] s[i]),
    ensures
        without(s, class) == s,
    decreases s.len(),
{
    if s.len() == 0 {
        reveal(Seq::filter);
    } else {
        let t = s.drop_last();
        lemma_without_none(t, class);
        assert(t.push(s.last()) =~= s);
        lemma_without_push(t, s.last(), class);
    }
}

/// Removes the characters of `class` from the text.
pub fn remove_class(v: &Vec<char>, class: CharClass) -> (r: Vec<char>)
    ensures
        r@ == without(v@, class),
{
    let mut r: Vec<char> = Vec::new();
    let mut i: usize = 0;
    proof {
        lemma_without_none(v@.take(0), class);
    }
    while i < v.len()
        invariant
            i <= v.len(),
            r@ == without(v@.take(i as int), class),
        decreases v.len() - i,
    {
        proof {
            assert(v@.take(i + 1) =~= v@.take(i as int).push(v@[i as int]));
            lemma_without_push(v@.take(i as int), v@[i as int], class);
        }
        if !class.contains(v[i]) {
            r.push(v[i]);
        }
        i = i + 1;
    }
    assert(v@.take(v@.len() as int) =~= v@);
    r
}

/// The lines of a slice of strings, each as characters.
pub fn char_lines(lines: &[String]) -> (r: Vec<Vec<char>>)
    ensures
        texts(r@) == lines.deep_view(),
        r@.len() == lines@.len(),
{
    let mut r: Vec<Vec<char>> = Vec::new();
    let mut i: usize = 0;
    while i < lines.len()
        invariant
            i <= lines.len(),
            r@.len() == i,
            forall|k: int| 0 <= k < i ==> (#[trigger] r@[k])@ == lines@[k]@,
        decreases lines.len() - i,
    {
        let l = to_chars(lines[i].as_str());
        r.push(l);
        i = i + 1;
    }
    assert(texts(r@) =~= lines.deep_view());
    r
}

/// The lines from `from` up to `to`, each as a string.
pub fn string_lines(lines: &Vec<Vec<char>>, from: usize, to: usize) -> (r: Vec<String>)
    requires
        from <= to <= lines.len(),
    ensures
        r.deep_view() == texts(lines@).subrange(from as int, to as int),
{
    let mut r: Vec<String> = Vec::new();
    let mut i: usize = from;
    while i < to
        invariant
            from <= i <= to <= lines.len(),
            r@.len() == i - from,
            forall|k: int| 0 <= k < i - from ==> (#[trigger] r@[k])@ == lines@[from + k]@,
        decreases to - i,
    {
        let l = from_chars(&lines[i]);
        r.push(l);
        i = i + 1;
    }
    assert(r.deep_view() =~= texts(lines@).subrange(from as int, to as int));
    r
}

} // verus!
