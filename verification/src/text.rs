//! Character-level text operations with exact specifications.
//!
//! Text is handled as a slice of `char`s whose view is a `Seq<char>`. Every
//! operation returns a sub-slice or a fresh vector and says, as a spec
//! function of the input's view, which characters it holds.

use vstd::prelude::*;
use vstd::slice::slice_subrange;

verus! {

/// The characters with the Unicode `White_Space` property.
pub open spec fn is_whitespace(c: char) -> bool {
    let n = c as u32;
    ||| 0x09 <= n <= 0x0d
    ||| n == 0x20
    ||| n == 0x85
    ||| n == 0xa0
    ||| n == 0x1680
    ||| 0x2000 <= n <= 0x200a
    ||| n == 0x2028
    ||| n == 0x2029
    ||| n == 0x202f
    ||| n == 0x205f
    ||| n == 0x3000
}

/// Whether `c` can stand in a bare word: an ASCII letter or digit, or `_`.
pub open spec fn is_word_char(c: char) -> bool {
    ('a' <= c <= 'z') || ('A' <= c <= 'Z') || ('0' <= c <= '9') || c == '_'
}

/// Whether `c` can stand in a run of punctuation: it is neither white space
/// nor a word character, a double quote or a colon.
pub open spec fn is_symbol_char(c: char) -> bool {
    !is_whitespace(c) && !is_word_char(c) && c != '"' && c != ':'
}

/// A set of characters, to strip from the ends of a text or to take from its
/// start.
#[derive(Clone, Copy, Debug)]
pub enum CharClass {
    /// Every white-space character.
    Whitespace,
    /// One given character.
    Exactly(char),
    /// The characters of bare words.
    Word,
    /// The characters of punctuation runs.
    Symbol,
}

impl CharClass {
    /// Whether `c` belongs to the class.
    pub open spec fn holds(self, c: char) -> bool {
        match self {
            CharClass::Whitespace => is_whitespace(c),
            CharClass::Exactly(d) => c == d,
            CharClass::Word => is_word_char(c),
            CharClass::Symbol => is_symbol_char(c),
        }
    }

    /// Tests whether `c` is white space.
    pub fn is_space(c: char) -> (r: bool)
        ensures
            r == is_whitespace(c),
    {
        let n: u32 = c as u32;
        (0x09 <= n && n <= 0x0d) || n == 0x20 || n == 0x85 || n == 0xa0 || n == 0x1680 || (0x2000
            <= n && n <= 0x200a) || n == 0x2028 || n == 0x2029 || n == 0x202f || n == 0x205f || n
            == 0x3000
    }

    /// Tests whether `c` is a word character.
    pub fn is_word(c: char) -> (r: bool)
        ensures
            r == is_word_char(c),
    {
        ('a' <= c && c <= 'z') || ('A' <= c && c <= 'Z') || ('0' <= c && c <= '9') || c == '_'
    }

    /// Tests membership of `c`.
    pub fn test(&self, c: char) -> (r: bool)
        ensures
            r == self.holds(c),
    {
        match self {
            CharClass::Whitespace => Self::is_space(c),
            CharClass::Exactly(d) => c == *d,
            CharClass::Word => Self::is_word(c),
            CharClass::Symbol => !Self::is_space(c) && !Self::is_word(c) && c != '"' && c != ':',
        }
    }
}

/// `s` without its longest prefix of characters in `class`.
pub open spec fn trim_start_of(s: Seq<char>, class: CharClass) -> Seq<char>
    decreases s.len(),
{
    if s.len() > 0 && class.holds(s[0]) {
        trim_start_of(s.subrange(1, s.len() as int), class)
    } else {
        s
    }
}

/// The length of the longest prefix of `s` made of characters in `class`.
pub open spec fn leading(s: Seq<char>, class: CharClass) -> int
    decreases s.len(),
{
    if s.len() > 0 && class.holds(s[0]) {
        1 + leading(s.subrange(1, s.len() as int), class)
    } else {
        0
    }
}

/// The longest prefix of `s` made of characters in `class`.
pub open spec fn lead(s: Seq<char>, class: CharClass) -> Seq<char> {
    s.subrange(0, leading(s, class))
}

/// What follows the longest prefix of `s` made of characters in `class`.
pub open spec fn after_lead(s: Seq<char>, class: CharClass) -> Seq<char> {
    s.subrange(leading(s, class), s.len() as int)
}

/// `leading` lies within the text, and where it is not 0 the text begins
/// with a character of the class.
pub proof fn lemma_leading_bounds(s: Seq<char>, class: CharClass)
    ensures
        0 <= leading(s, class) <= s.len(),
        leading(s, class) > 0 ==> class.holds(s[0]),
    decreases s.len(),
{
    if s.len() > 0 && class.holds(s[0]) {
        lemma_leading_bounds(s.subrange(1, s.len() as int), class);
    }
}

/// `s` without its longest suffix of characters in `class`.
pub open spec fn trim_end_of(s: Seq<char>, class: CharClass) -> Seq<char>
    decreases s.len(),
{
    if s.len() > 0 && class.holds(s.last()) {
        trim_end_of(s.drop_last(), class)
    } else {
        s
    }
}

/// `s` with characters of `class` stripped from both ends.
pub open spec fn trim_of(s: Seq<char>, class: CharClass) -> Seq<char> {
    trim_end_of(trim_start_of(s, class), class)
}

/// `s` without leading and trailing white space.
pub open spec fn trim(s: Seq<char>) -> Seq<char> {
    trim_of(s, CharClass::Whitespace)
}

/// `s` without leading and trailing occurrences of `c`.
pub open spec fn trim_matches(s: Seq<char>, c: char) -> Seq<char> {
    trim_of(s, CharClass::Exactly(c))
}

/// `s` without trailing occurrences of `c`.
pub open spec fn trim_end_matches(s: Seq<char>, c: char) -> Seq<char> {
    trim_end_of(s, CharClass::Exactly(c))
}

/// Strips the leading characters of `class`.
pub fn strip_start<'a>(s: &'a [char], class: CharClass) -> (r: &'a [char])
    ensures
        r@ == trim_start_of(s@, class),
{
    let mut i: usize = 0;
    assert(s@.subrange(0, s@.len() as int) =~= s@);
    while i < s.len() && class.test(s[i])
        invariant
            i <= s.len(),
            trim_start_of(s@, class) == trim_start_of(s@.subrange(i as int, s@.len() as int), class),
        decreases s.len() - i,
    {
        proof {
            let rest = s@.subrange(i as int, s@.len() as int);
            assert(rest[0] == s@[i as int]);
            assert(rest.subrange(1, rest.len() as int) =~= s@.subrange(i + 1, s@.len() as int));
        }
        i += 1;
    }
    proof {
        let rest = s@.subrange(i as int, s@.len() as int);
        if i < s.len() {
            assert(rest[0] == s@[i as int]);
        }
    }
    slice_subrange(s, i, s.len())
}

/// Strips the trailing characters of `class`.
pub fn strip_end<'a>(s: &'a [char], class: CharClass) -> (r: &'a [char])
    ensures
        r@ == trim_end_of(s@, class),
{
    let mut n: usize = s.len();
    assert(s@.subrange(0, s@.len() as int) =~= s@);
    while n > 0 && class.test(s[n - 1])
        invariant
            n <= s.len(),
            trim_end_of(s@, class) == trim_end_of(s@.subrange(0, n as int), class),
        decreases n,
    {
        proof {
            let head = s@.subrange(0, n as int);
            assert(head.last() == s@[n - 1]);
            assert(head.drop_last() =~= s@.subrange(0, n - 1));
        }
        n -= 1;
    }
    proof {
        let head = s@.subrange(0, n as int);
        if n > 0 {
            assert(head.last() == s@[n - 1]);
        }
    }
    slice_subrange(s, 0, n)
}

/// Strips white space from both ends.
pub fn strip<'a>(s: &'a [char]) -> (r: &'a [char])
    ensures
        r@ == trim(s@),
{
    strip_end(strip_start(s, CharClass::Whitespace), CharClass::Whitespace)
}

/// Strips every leading and trailing `c`.
pub fn strip_matches<'a>(s: &'a [char], c: char) -> (r: &'a [char])
    ensures
        r@ == trim_matches(s@, c),
{
    strip_end(strip_start(s, CharClass::Exactly(c)), CharClass::Exactly(c))
}

/// Strips every trailing `c`.
pub fn strip_end_matches<'a>(s: &'a [char], c: char) -> (r: &'a [char])
    ensures
        r@ == trim_end_matches(s@, c),
{
    strip_end(s, CharClass::Exactly(c))
}

/// Whether `pat` stands in `s` at index `i`.
pub open spec fn occurs_at(s: Seq<char>, pat: Seq<char>, i: int) -> bool {
    &&& 0 <= i
    &&& i + pat.len() <= s.len()
    &&& s.subrange(i, i + pat.len()) == pat
}

/// Whether `s` begins with `pat`.
pub open spec fn has_prefix(s: Seq<char>, pat: Seq<char>) -> bool {
    occurs_at(s, pat, 0)
}

/// The least index at or after `from` at which `pat` stands in `s`.
pub open spec fn first_index_from(s: Seq<char>, pat: Seq<char>, from: int) -> Option<int>
    decreases s.len() - from,
{
    if from < 0 || from + pat.len() > s.len() {
        None
    } else if occurs_at(s, pat, from) {
        Some(from)
    } else if from >= s.len() {
        None
    } else {
        first_index_from(s, pat, from + 1)
    }
}

/// The least index at which `pat` stands in `s`, if it occurs at all.
pub open spec fn first_index(s: Seq<char>, pat: Seq<char>) -> Option<int> {
    first_index_from(s, pat, 0)
}

/// Whether `pat` occurs somewhere in `s`.
pub open spec fn includes(s: Seq<char>, pat: Seq<char>) -> bool {
    first_index(s, pat) is Some
}

/// The index of the first `c` in `s`, or the length of `s` if there is none.
pub open spec fn position(s: Seq<char>, c: char) -> int
    decreases s.len(),
{
    if s.len() == 0 || s[0] == c {
        0
    } else {
        1 + position(s.subrange(1, s.len() as int), c)
    }
}

/// The index of the last `c` in `s`, if `c` occurs.
pub open spec fn last_position(s: Seq<char>, c: char) -> Option<int>
    decreases s.len(),
{
    if s.len() == 0 {
        None
    } else if s.last() == c {
        Some(s.len() - 1)
    } else {
        last_position(s.drop_last(), c)
    }
}

/// `position` lies within the text, names an occurrence of `c` when it is
/// short of the end, and no `c` stands before it.
pub proof fn lemma_position(s: Seq<char>, c: char)
    ensures
        0 <= position(s, c) <= s.len(),
        position(s, c) < s.len() ==> s[position(s, c)] == c,
        forall|j: int| 0 <= j < position(s, c) ==> s[j] != c,
    decreases s.len(),
{
    if s.len() == 0 || s[0] == c {
    } else {
        let rest = s.subrange(1, s.len() as int);
        lemma_position(rest, c);
        assert forall|j: int| 0 <= j < position(s, c) implies s[j] != c by {
            if j > 0 {
                assert(rest[j - 1] == s[j]);
            }
        }
        if position(s, c) < s.len() {
            assert(rest[position(rest, c)] == s[position(s, c)]);
        }
    }
}

/// `first_index_from` returns the least occurrence at or after `from`.
pub proof fn lemma_first_index_from(s: Seq<char>, pat: Seq<char>, from: int)
    requires
        0 <= from,
    ensures
        match first_index_from(s, pat, from) {
            Some(i) => from <= i && occurs_at(s, pat, i) && forall|j: int|
                from <= j < i ==> !occurs_at(s, pat, j),
            None => forall|j: int| from <= j ==> !occurs_at(s, pat, j),
        },
    decreases s.len() - from,
{
    if from + pat.len() > s.len() {
    } else if occurs_at(s, pat, from) {
    } else if from >= s.len() {
    } else {
        lemma_first_index_from(s, pat, from + 1);
    }
}

/// Tests whether `pat` stands in `s` at index `i`.
pub fn matches_at(s: &[char], pat: &[char], i: usize) -> (r: bool)
    ensures
        r == occurs_at(s@, pat@, i as int),
{
    if pat.len() > s.len() || i > s.len() - pat.len() {
        return false;
    }
    let mut k: usize = 0;
    while k < pat.len()
        invariant
            k <= pat.len(),
            i + pat.len() <= s.len(),
            forall|j: int| 0 <= j < k ==> s@[i + j] == pat@[j],
        decreases pat.len() - k,
    {
        if s[i + k] != pat[k] {
            proof {
                assert(s@.subrange(i as int, i + pat@.len())[k as int] == s@[i + k]);
            }
            return false;
        }
        k += 1;
    }
    proof {
        assert(s@.subrange(i as int, i + pat@.len()) =~= pat@);
    }
    true
}

/// Tests whether `s` begins with `pat`.
pub fn starts_with(s: &[char], pat: &[char]) -> (r: bool)
    ensures
        r == has_prefix(s@, pat@),
{
    matches_at(s, pat, 0)
}

/// Finds the first occurrence of `pat` in `s` at or after `from`.
pub fn find_from(s: &[char], pat: &[char], from: usize) -> (r: Option<usize>)
    ensures
        match r {
            Some(i) => first_index_from(s@, pat@, from as int) == Some(i as int) && from <= i
                && i + pat@.len() <= s@.len(),
            None => first_index_from(s@, pat@, from as int) is None,
        },
{
    if pat.len() > s.len() || from > s.len() - pat.len() {
        return None;
    }
    let last: usize = s.len() - pat.len();
    let mut i: usize = from;
    loop
        invariant
            from <= i <= last,
            last + pat.len() == s.len(),
            first_index_from(s@, pat@, from as int) == first_index_from(s@, pat@, i as int),
        decreases last - i,
    {
        if matches_at(s, pat, i) {
            return Some(i);
        }
        if i == last {
            assert(first_index_from(s@, pat@, i + 1) is None);
            return None;
        }
        i += 1;
    }
}

/// Finds the first occurrence of `pat` in `s`.
pub fn find(s: &[char], pat: &[char]) -> (r: Option<usize>)
    ensures
        match r {
            Some(i) => first_index(s@, pat@) == Some(i as int),
            None => first_index(s@, pat@) is None,
        },
{
    find_from(s, pat, 0)
}

/// Tests whether `pat` occurs in `s`.
pub fn contains(s: &[char], pat: &[char]) -> (r: bool)
    ensures
        r == includes(s@, pat@),
{
    find(s, pat).is_some()
}

/// Finds the first `c` in `s`; the length of `s` stands for "none".
pub fn find_char(s: &[char], c: char) -> (r: usize)
    ensures
        r == position(s@, c),
        r <= s.len(),
{
    let mut i: usize = 0;
    assert(s@.subrange(0, s@.len() as int) =~= s@);
    while i < s.len() && s[i] != c
        invariant
            i <= s.len(),
            position(s@, c) == i + position(s@.subrange(i as int, s@.len() as int), c),
        decreases s.len() - i,
    {
        proof {
            let rest = s@.subrange(i as int, s@.len() as int);
            assert(rest[0] == s@[i as int]);
            assert(rest.subrange(1, rest.len() as int) =~= s@.subrange(i + 1, s@.len() as int));
        }
        i += 1;
    }
    proof {
        let rest = s@.subrange(i as int, s@.len() as int);
        if i < s.len() {
            assert(rest[0] == s@[i as int]);
        }
    }
    i
}

/// Finds the last `c` in `s`.
pub fn rfind_char(s: &[char], c: char) -> (r: Option<usize>)
    ensures
        match r {
            Some(i) => last_position(s@, c) == Some(i as int) && i < s.len(),
            None => last_position(s@, c) is None,
        },
{
    let mut n: usize = s.len();
    assert(s@.subrange(0, s@.len() as int) =~= s@);
    while n > 0
        invariant
            n <= s.len(),
            last_position(s@, c) == last_position(s@.subrange(0, n as int), c),
        decreases n,
    {
        proof {
            let head = s@.subrange(0, n as int);
            assert(head.last() == s@[n - 1]);
            assert(head.drop_last() =~= s@.subrange(0, n - 1));
        }
        if s[n - 1] == c {
            return Some(n - 1);
        }
        n -= 1;
    }
    None
}

/// The texts that a sequence of slices holds.
pub open spec fn views(parts: Seq<&[char]>) -> Seq<Seq<char>> {
    Seq::new(parts.len(), |i: int| parts[i]@)
}

/// The first `i + 1` texts of `parts` are the first `i` and the text at `i`.
pub proof fn lemma_views_step(parts: Seq<&[char]>, i: int)
    requires
        0 <= i < parts.len(),
    ensures
        views(parts).subrange(0, i + 1).drop_last() == views(parts).subrange(0, i),
        views(parts).subrange(0, i + 1).last() == parts[i]@,
{
    assert(views(parts).subrange(0, i + 1).drop_last() =~= views(parts).subrange(0, i));
}

/// No texts of `parts` are no texts, and all of them are all.
pub proof fn lemma_views_ends(parts: Seq<&[char]>)
    ensures
        views(parts).subrange(0, 0) == Seq::<Seq<char>>::empty(),
        views(parts).subrange(0, parts.len() as int) == views(parts),
{
    assert(views(parts).subrange(0, 0) =~= Seq::<Seq<char>>::empty());
    assert(views(parts).subrange(0, parts.len() as int) =~= views(parts));
}

/// The pieces of `s` between occurrences of `sep`; there is always at least one.
pub open spec fn fields(s: Seq<char>, sep: char) -> Seq<Seq<char>>
    decreases s.len(),
{
    let p = position(s, sep);
    if 0 <= p < s.len() {
        seq![s.subrange(0, p)] + fields(s.subrange(p + 1, s.len() as int), sep)
    } else {
        seq![s]
    }
}

/// `line` without one trailing carriage return.
pub open spec fn without_cr(line: Seq<char>) -> Seq<char> {
    if line.len() > 0 && line.last() == '\r' {
        line.drop_last()
    } else {
        line
    }
}

/// The lines of `s`: it is cut at every line feed, a carriage return just before
/// a line feed goes with it, and a final line ending adds no empty line.
pub open spec fn lines(s: Seq<char>) -> Seq<Seq<char>>
    decreases s.len(),
{
    if s.len() == 0 {
        Seq::empty()
    } else {
        let p = position(s, '\n');
        if 0 <= p < s.len() {
            seq![without_cr(s.subrange(0, p))] + lines(s.subrange(p + 1, s.len() as int))
        } else {
            seq![s]
        }
    }
}

/// Cuts `s` at every `sep`.
pub fn split<'a>(s: &'a [char], sep: char) -> (parts: Vec<&'a [char]>)
    ensures
        views(parts@) == fields(s@, sep),
{
    let mut parts: Vec<&'a [char]> = Vec::new();
    let mut start: usize = 0;
    assert(s@.subrange(0, s@.len() as int) =~= s@);
    assert(views(parts@) =~= Seq::empty());
    loop
        invariant
            start <= s.len(),
            fields(s@, sep) == views(parts@) + fields(s@.subrange(start as int, s@.len() as int), sep),
        decreases s.len() - start,
    {
        let rest = slice_subrange(s, start, s.len());
        let p = find_char(rest, sep);
        let ghost before = views(parts@);
        if p < rest.len() {
            let piece = slice_subrange(rest, 0, p);
            parts.push(piece);
            proof {
                assert(rest@.subrange(p + 1, rest@.len() as int) =~= s@.subrange(
                    start + p + 1,
                    s@.len() as int,
                ));
                assert(views(parts@) =~= before + seq![rest@.subrange(0, p as int)]);
            }
            start = start + p + 1;
        } else {
            parts.push(rest);
            proof {
                assert(views(parts@) =~= before + seq![rest@]);
            }
            return parts;
        }
    }
}

/// Cuts `s` into its lines.
pub fn split_lines<'a>(s: &'a [char]) -> (parts: Vec<&'a [char]>)
    ensures
        views(parts@) == lines(s@),
{
    let mut parts: Vec<&'a [char]> = Vec::new();
    let mut start: usize = 0;
    assert(s@.subrange(0, s@.len() as int) =~= s@);
    assert(views(parts@) =~= Seq::empty());
    while start < s.len()
        invariant
            start <= s.len(),
            lines(s@) == views(parts@) + lines(s@.subrange(start as int, s@.len() as int)),
        decreases s.len() - start,
    {
        let rest = slice_subrange(s, start, s.len());
        let p = find_char(rest, '\n');
        let ghost before = views(parts@);
        if p < rest.len() {
            let piece = slice_subrange(rest, 0, p);
            let line = if p > 0 && piece[p - 1] == '\r' {
                slice_subrange(piece, 0, p - 1)
            } else {
                piece
            };
            parts.push(line);
            proof {
                assert(line@ == without_cr(rest@.subrange(0, p as int)));
                assert(rest@.subrange(p + 1, rest@.len() as int) =~= s@.subrange(
                    start + p + 1,
                    s@.len() as int,
                ));
                assert(views(parts@) =~= before + seq![line@]);
            }
            start = start + p + 1;
        } else {
            parts.push(rest);
            proof {
                assert(views(parts@) =~= before + seq![rest@]);
                assert(s@.subrange(s@.len() as int, s@.len() as int) =~= Seq::<char>::empty());
                assert(lines(s@.subrange(s@.len() as int, s@.len() as int)) =~= Seq::empty());
            }
            start = s.len();
        }
    }
    proof {
        assert(s@.subrange(s@.len() as int, s@.len() as int).len() == 0);
    }
    parts
}

/// `s` with every occurrence of `pat` replaced by `with`, taking occurrences
/// from the left and never overlapping. An empty `pat` occurs before every
/// character and at the end.
pub open spec fn replaced(s: Seq<char>, pat: Seq<char>, with: Seq<char>) -> Seq<char>
    decreases s.len(),
{
    if pat.len() == 0 {
        if s.len() == 0 {
            with
        } else {
            with + seq![s[0]] + replaced(s.subrange(1, s.len() as int), pat, with)
        }
    } else if s.len() < pat.len() {
        s
    } else if occurs_at(s, pat, 0) {
        with + replaced(s.subrange(pat.len() as int, s.len() as int), pat, with)
    } else {
        seq![s[0]] + replaced(s.subrange(1, s.len() as int), pat, with)
    }
}

/// Replaces every occurrence of `pat` by `with`.
pub fn replace(s: &[char], pat: &[char], with: &[char]) -> (out: Vec<char>)
    ensures
        out@ == replaced(s@, pat@, with@),
{
    let mut out: Vec<char> = Vec::new();
    if pat.len() == 0 {
        let mut k: usize = 0;
        assert(s@.subrange(0, s@.len() as int) =~= s@);
        assert(out@ + replaced(s@, pat@, with@) =~= replaced(s@, pat@, with@));
        while k < s.len()
            invariant
                k <= s.len(),
                pat@.len() == 0,
                replaced(s@, pat@, with@) == out@ + replaced(
                    s@.subrange(k as int, s@.len() as int),
                    pat@,
                    with@,
                ),
            decreases s.len() - k,
        {
            let ghost before = out@;
            let ghost rest = s@.subrange(k as int, s@.len() as int);
            push_all(&mut out, with);
            out.push(s[k]);
            proof {
                let tail = replaced(s@.subrange(k + 1, s@.len() as int), pat@, with@);
                assert(rest[0] == s@[k as int]);
                assert(rest.subrange(1, rest.len() as int) =~= s@.subrange(k + 1, s@.len() as int));
                assert(before + (with@ + seq![s@[k as int]] + tail) =~= (before + with@).push(
                    s@[k as int],
                ) + tail);
            }
            k += 1;
        }
        push_all(&mut out, with);
        proof {
            assert(s@.subrange(s@.len() as int, s@.len() as int).len() == 0);
        }
        return out;
    }
    let mut i: usize = 0;
    assert(s@.subrange(0, s@.len() as int) =~= s@);
    while i < s.len()
        invariant
            i <= s.len(),
            pat@.len() > 0,
            replaced(s@, pat@, with@) == out@ + replaced(
                s@.subrange(i as int, s@.len() as int),
                pat@,
                with@,
            ),
        decreases s.len() - i,
    {
        let ghost rest = s@.subrange(i as int, s@.len() as int);
        let ghost before = out@;
        if matches_at(s, pat, i) {
            proof {
                assert(rest.subrange(0, pat@.len() as int) =~= s@.subrange(
                    i as int,
                    i + pat@.len(),
                ));
                assert(occurs_at(rest, pat@, 0));
                assert(rest.subrange(pat@.len() as int, rest.len() as int) =~= s@.subrange(
                    i + pat@.len(),
                    s@.len() as int,
                ));
            }
            let mut k: usize = 0;
            while k < with.len()
                invariant
                    k <= with.len(),
                    out@ == before + with@.subrange(0, k as int),
                decreases with.len() - k,
            {
                out.push(with[k]);
                proof {
                    assert(with@.subrange(0, k + 1) =~= with@.subrange(0, k as int).push(
                        with@[k as int],
                    ));
                }
                k += 1;
            }
            proof {
                assert(with@.subrange(0, with@.len() as int) =~= with@);
                let tail = replaced(s@.subrange(i + pat@.len(), s@.len() as int), pat@, with@);
                assert(before + (with@ + tail) =~= (before + with@) + tail);
            }
            i += pat.len();
        } else {
            proof {
                if rest.len() >= pat@.len() {
                    assert(rest.subrange(0, pat@.len() as int) =~= s@.subrange(
                        i as int,
                        i + pat@.len(),
                    ));
                    assert(!occurs_at(rest, pat@, 0));
                }
                assert(rest[0] == s@[i as int]);
                assert(rest.subrange(1, rest.len() as int) =~= s@.subrange(i + 1, s@.len() as int));
            }
            out.push(s[i]);
            proof {
                if rest.len() >= pat@.len() {
                    let tail = replaced(s@.subrange(i + 1, s@.len() as int), pat@, with@);
                    assert(before + (seq![s@[i as int]] + tail) =~= before.push(s@[i as int])
                        + tail);
                } else {
                    // What is left is shorter than the pattern and stays as it is.
                    let tail = s@.subrange(i + 1, s@.len() as int);
                    assert(replaced(tail, pat@, with@) == tail);
                    assert(before + rest =~= before.push(s@[i as int]) + tail);
                }
            }
            i += 1;
        }
    }
    proof {
        assert(s@.subrange(s@.len() as int, s@.len() as int) =~= Seq::<char>::empty());
        assert(out@ + Seq::<char>::empty() =~= out@);
    }
    out
}

/// The lower-case form of a text, as the standard library computes it.
pub uninterp spec fn lowercase(s: Seq<char>) -> Seq<char>;

/// `str::to_lowercase` of the standard library: the result depends on the
/// characters of `s` alone, and `lowercase` is the name of that dependence.
pub assume_specification[ str::to_lowercase ](s: &str) -> (r: String)
    ensures
        r@ == lowercase(s@),
;

/// `String::push` of the standard library appends one character.
pub assume_specification[ String::push ](s: &mut String, c: char)
    ensures
        final(s)@ == old(s)@.push(c),
;

/// The characters of a string.
pub fn to_chars(s: &str) -> (out: Vec<char>)
    ensures
        out@ == s@,
{
    let mut out: Vec<char> = Vec::new();
    for c in it: s.chars()
        invariant
            out@ == it.seq().take(it.index()),
            it.seq() == s@,
    {
        out.push(c);
    }
    out
}

/// The string made of the characters of `s`.
pub fn to_string(s: &[char]) -> (out: String)
    ensures
        out@ == s@,
{
    let mut out = String::new();
    let mut i: usize = 0;
    while i < s.len()
        invariant
            i <= s.len(),
            out@ == s@.take(i as int),
        decreases s.len() - i,
    {
        out.push(s[i]);
        i += 1;
    }
    out
}

/// The lower-case form of `s`.
pub fn lower(s: &[char]) -> (out: Vec<char>)
    ensures
        out@ == lowercase(s@),
{
    let owned = to_string(s);
    let lowered = owned.as_str().to_lowercase();
    to_chars(lowered.as_str())
}

/// Whether two texts hold the same characters.
pub fn same(a: &[char], b: &[char]) -> (r: bool)
    ensures
        r == (a@ == b@),
{
    if a.len() != b.len() {
        return false;
    }
    let r = matches_at(a, b, 0);
    proof {
        assert(a@.subrange(0, a@.len() as int) =~= a@);
    }
    r
}

/// Whether `c` is one of the ten ASCII digits.
pub open spec fn is_digit(c: char) -> bool {
    '0' <= c <= '9'
}

/// The number that a text of decimal digits writes.
pub open spec fn digits_value(s: Seq<char>) -> nat
    decreases s.len(),
{
    if s.len() == 0 {
        0
    } else {
        (digits_value(s.drop_last()) * 10 + (s.last() as u32 - '0' as u32)) as nat
    }
}

/// Whether `s` consists of decimal digits only.
pub open spec fn all_digits(s: Seq<char>) -> bool {
    forall|i: int| 0 <= i < s.len() ==> is_digit(#[trigger] s[i])
}

/// The unsigned 32-bit number that `s` writes: an optional `+`, then one or
/// more decimal digits, the value no larger than `u32::MAX`.
pub open spec fn number(s: Seq<char>) -> Option<u32> {
    if s.len() > 0 && s[0] == '+' {
        unsigned(s.subrange(1, s.len() as int))
    } else {
        unsigned(s)
    }
}

/// The unsigned 32-bit number that a non-empty text of digits writes.
pub open spec fn unsigned(digits: Seq<char>) -> Option<u32> {
    if digits.len() > 0 && all_digits(digits) && digits_value(digits) <= u32::MAX {
        Some(digits_value(digits) as u32)
    } else {
        None
    }
}

/// A longer text of digits writes a number at least as large as each of its prefixes.
pub proof fn lemma_digits_value_grows(s: Seq<char>, n: int)
    requires
        0 <= n <= s.len(),
        all_digits(s),
    ensures
        digits_value(s.subrange(0, n)) <= digits_value(s),
    decreases s.len(),
{
    if n == s.len() {
        assert(s.subrange(0, n) =~= s);
    } else {
        assert(s.drop_last().subrange(0, n) =~= s.subrange(0, n));
        assert(all_digits(s.drop_last())) by {
            assert forall|i: int| 0 <= i < s.drop_last().len() implies is_digit(
                #[trigger] s.drop_last()[i],
            ) by {
                assert(s.drop_last()[i] == s[i]);
            }
        }
        lemma_digits_value_grows(s.drop_last(), n);
        assert(is_digit(s[s.len() - 1]));
    }
}

/// Whether the characters of `s` spell `word`.
pub fn spells(s: &[char], word: &str) -> (r: bool)
    ensures
        r == (s@ == word@),
{
    let letters = to_chars(word);
    same(s, letters.as_slice())
}

/// Reads an unsigned 32-bit decimal number.
pub fn parse_u32(s: &[char]) -> (r: Option<u32>)
    ensures
        r == number(s@),
{
    let digits = if s.len() > 0 && s[0] == '+' {
        slice_subrange(s, 1, s.len())
    } else {
        s
    };
    if digits.len() == 0 {
        return None;
    }
    let mut value: u32 = 0;
    let mut i: usize = 0;
    assert(digits@.subrange(0, 0) =~= Seq::<char>::empty());
    while i < digits.len()
        invariant
            i <= digits.len(),
            digits@.len() > 0,
            number(s@) == unsigned(digits@),
            all_digits(digits@.subrange(0, i as int)),
            value == digits_value(digits@.subrange(0, i as int)),
        decreases digits.len() - i,
    {
        let c = digits[i];
        let ghost head = digits@.subrange(0, i + 1);
        proof {
            assert(head.drop_last() =~= digits@.subrange(0, i as int));
            assert(head.last() == c);
        }
        if !('0' <= c && c <= '9') {
            proof {
                assert(!is_digit(digits@[i as int]));
            }
            return None;
        }
        let d: u32 = c as u32 - '0' as u32;
        if value > (u32::MAX - d) / 10 {
            proof {
                assert(digits_value(head) > u32::MAX);
                if all_digits(digits@) {
                    lemma_digits_value_grows(digits@, i + 1);
                }
            }
            return None;
        }
        value = value * 10 + d;
        proof {
            assert forall|j: int| 0 <= j < head.len() implies is_digit(#[trigger] head[j]) by {
                if j < i {
                    assert(head[j] == digits@.subrange(0, i as int)[j]);
                }
            }
        }
        i += 1;
    }
    proof {
        assert(digits@.subrange(0, digits@.len() as int) =~= digits@);
    }
    Some(value)
}

/// The character that writes the decimal digit `d`.
pub open spec fn digit_char(d: nat) -> char {
    if d == 0 {
        '0'
    } else if d == 1 {
        '1'
    } else if d == 2 {
        '2'
    } else if d == 3 {
        '3'
    } else if d == 4 {
        '4'
    } else if d == 5 {
        '5'
    } else if d == 6 {
        '6'
    } else if d == 7 {
        '7'
    } else if d == 8 {
        '8'
    } else {
        '9'
    }
}

/// The decimal notation of `n`, without sign or leading zeros.
pub open spec fn decimal(n: nat) -> Seq<char>
    decreases n,
{
    if n < 10 {
        seq![digit_char(n)]
    } else {
        decimal(n / 10).push(digit_char(n % 10))
    }
}

/// The character for a digit below ten.
fn digit(d: u64) -> (c: char)
    requires
        d < 10,
    ensures
        c == digit_char(d as nat),
{
    if d == 0 {
        '0'
    } else if d == 1 {
        '1'
    } else if d == 2 {
        '2'
    } else if d == 3 {
        '3'
    } else if d == 4 {
        '4'
    } else if d == 5 {
        '5'
    } else if d == 6 {
        '6'
    } else if d == 7 {
        '7'
    } else if d == 8 {
        '8'
    } else {
        '9'
    }
}

/// Appends the decimal notation of `n` to `out`.
pub fn push_decimal(out: &mut Vec<char>, n: u64)
    ensures
        final(out)@ == old(out)@ + decimal(n as nat),
    decreases n,
{
    if n >= 10 {
        push_decimal(out, n / 10);
    }
    out.push(digit(n % 10));
    proof {
        if n >= 10 {
            assert(old(out)@ + decimal(n as nat) =~= (old(out)@ + decimal((n / 10) as nat)).push(
                digit_char((n % 10) as nat),
            ));
        } else {
            assert(old(out)@ + decimal(n as nat) =~= old(out)@.push(digit_char(n as nat)));
        }
    }
}

/// Appends the characters of `s` to `out`.
pub fn push_all(out: &mut Vec<char>, s: &[char])
    ensures
        final(out)@ == old(out)@ + s@,
{
    let mut i: usize = 0;
    assert(old(out)@ + s@.subrange(0, 0) =~= old(out)@);
    while i < s.len()
        invariant
            i <= s.len(),
            out@ == old(out)@ + s@.subrange(0, i as int),
        decreases s.len() - i,
    {
        out.push(s[i]);
        proof {
            assert(old(out)@ + s@.subrange(0, i + 1) =~= (old(out)@ + s@.subrange(0, i as int)).push(
                s@[i as int],
            ));
        }
        i += 1;
    }
    proof {
        assert(s@.subrange(0, s@.len() as int) =~= s@);
    }
}

/// Splits `s` after its longest prefix of characters in `class`.
pub fn take<'a>(s: &'a [char], class: CharClass) -> (r: (&'a [char], &'a [char]))
    ensures
        r.0@ == lead(s@, class),
        r.1@ == after_lead(s@, class),
{
    let mut i: usize = 0;
    assert(s@.subrange(0, s@.len() as int) =~= s@);
    while i < s.len() && class.test(s[i])
        invariant
            i <= s.len(),
            leading(s@, class) == i + leading(s@.subrange(i as int, s@.len() as int), class),
        decreases s.len() - i,
    {
        proof {
            let rest = s@.subrange(i as int, s@.len() as int);
            assert(rest[0] == s@[i as int]);
            assert(rest.subrange(1, rest.len() as int) =~= s@.subrange(i + 1, s@.len() as int));
        }
        i += 1;
    }
    proof {
        let rest = s@.subrange(i as int, s@.len() as int);
        if i < s.len() {
            assert(rest[0] == s@[i as int]);
        }
    }
    (slice_subrange(s, 0, i), slice_subrange(s, i, s.len()))
}

/// Whether `part` stands somewhere in `whole` as a run of characters.
pub open spec fn is_part(part: Seq<char>, whole: Seq<char>) -> bool {
    exists|at: int| #[trigger] occurs_at(whole, part, at)
}

/// A stretch of a text is part of it.
pub proof fn lemma_subrange_is_part(s: Seq<char>, from: int, to: int)
    requires
        0 <= from <= to <= s.len(),
    ensures
        is_part(s.subrange(from, to), s),
{
    assert(s.subrange(from, from + s.subrange(from, to).len()) =~= s.subrange(from, to));
    assert(occurs_at(s, s.subrange(from, to), from));
}

/// A part of a part is a part.
pub proof fn lemma_part_of_part(inner: Seq<char>, middle: Seq<char>, outer: Seq<char>)
    requires
        is_part(inner, middle),
        is_part(middle, outer),
    ensures
        is_part(inner, outer),
{
    let a = choose|at: int| #[trigger] occurs_at(middle, inner, at);
    let b = choose|at: int| #[trigger] occurs_at(outer, middle, at);
    assert(outer.subrange(a + b, a + b + inner.len()) =~= outer.subrange(
        b,
        b + middle.len(),
    ).subrange(a, a + inner.len()));
    assert(occurs_at(outer, inner, a + b));
}

/// What is left of a text when characters are stripped from its start is part of it.
pub proof fn lemma_trim_start_is_part(s: Seq<char>, class: CharClass)
    ensures
        is_part(trim_start_of(s, class), s),
    decreases s.len(),
{
    if s.len() > 0 && class.holds(s[0]) {
        let rest = s.subrange(1, s.len() as int);
        lemma_trim_start_is_part(rest, class);
        lemma_subrange_is_part(s, 1, s.len() as int);
        lemma_part_of_part(trim_start_of(rest, class), rest, s);
    } else {
        lemma_subrange_is_part(s, 0, s.len() as int);
        assert(s.subrange(0, s.len() as int) =~= s);
    }
}

/// What is left of a text when characters are stripped from its end is part of it.
pub proof fn lemma_trim_end_is_part(s: Seq<char>, class: CharClass)
    ensures
        is_part(trim_end_of(s, class), s),
    decreases s.len(),
{
    if s.len() > 0 && class.holds(s.last()) {
        let rest = s.drop_last();
        lemma_trim_end_is_part(rest, class);
        lemma_subrange_is_part(s, 0, s.len() - 1);
        lemma_part_of_part(trim_end_of(rest, class), rest, s);
    } else {
        lemma_subrange_is_part(s, 0, s.len() as int);
        assert(s.subrange(0, s.len() as int) =~= s);
    }
}

/// A trimmed text is part of the text.
pub proof fn lemma_trim_is_part(s: Seq<char>)
    ensures
        is_part(trim(s), s),
{
    let class = CharClass::Whitespace;
    lemma_trim_start_is_part(s, class);
    lemma_trim_end_is_part(trim_start_of(s, class), class);
    lemma_part_of_part(trim(s), trim_start_of(s, class), s);
}

/// Every line of a text is part of the text.
pub proof fn lemma_line_is_part(s: Seq<char>, k: int)
    requires
        0 <= k < lines(s).len(),
    ensures
        is_part(lines(s)[k], s),
    decreases s.len(),
{
    let p = position(s, '\n');
    lemma_position(s, '\n');
    if 0 <= p < s.len() {
        if k == 0 {
            let first = s.subrange(0, p);
            lemma_subrange_is_part(s, 0, p);
            if first.len() > 0 && first.last() == '\r' {
                lemma_subrange_is_part(first, 0, first.len() - 1);
                lemma_part_of_part(without_cr(first), first, s);
            }
        } else {
            let rest = s.subrange(p + 1, s.len() as int);
            assert(lines(s)[k] == lines(rest)[k - 1]);
            lemma_line_is_part(rest, k - 1);
            lemma_subrange_is_part(s, p + 1, s.len() as int);
            lemma_part_of_part(lines(rest)[k - 1], rest, s);
        }
    } else {
        lemma_subrange_is_part(s, 0, s.len() as int);
        assert(s.subrange(0, s.len() as int) =~= s);
    }
}

/// A text in which `pat` stands at some index includes `pat`.
pub proof fn lemma_occurrence_is_included(s: Seq<char>, pat: Seq<char>, at: int)
    requires
        occurs_at(s, pat, at),
    ensures
        includes(s, pat),
{
    lemma_first_index_from(s, pat, 0);
}

/// What a part of a text includes, the text includes.
pub proof fn lemma_includes_in_part(part: Seq<char>, whole: Seq<char>, pat: Seq<char>)
    requires
        is_part(part, whole),
        includes(part, pat),
    ensures
        includes(whole, pat),
{
    lemma_first_index_from(part, pat, 0);
    let i = first_index(part, pat)->0;
    assert(occurs_at(part, pat, i));
    lemma_subrange_is_part(part, i, i + pat.len());
    assert(is_part(pat, part)) by {
        assert(occurs_at(part, pat, i));
    }
    lemma_part_of_part(pat, part, whole);
    let at = choose|at: int| #[trigger] occurs_at(whole, pat, at);
    lemma_occurrence_is_included(whole, pat, at);
}

/// The first character of a part of a text stands in the text.
pub proof fn lemma_part_starts_in_whole(part: Seq<char>, whole: Seq<char>) -> (at: int)
    requires
        is_part(part, whole),
        part.len() > 0,
    ensures
        0 <= at < whole.len(),
        whole[at] == part[0],
{
    let at = choose|at: int| #[trigger] occurs_at(whole, part, at);
    assert(whole.subrange(at, at + part.len())[0] == whole[at]);
    at
}

/// Whether every character of `s` is in `class`.
pub open spec fn all_in(s: Seq<char>, class: CharClass) -> bool {
    forall|i: int| 0 <= i < s.len() ==> class.holds(#[trigger] s[i])
}

/// A run of characters of a class, followed by a text that does not begin
/// with one, is the longest prefix of the class; stripping the class from the
/// start leaves what follows the run.
pub proof fn lemma_leading_run(run: Seq<char>, rest: Seq<char>, class: CharClass)
    requires
        all_in(run, class),
        rest.len() == 0 || !class.holds(rest[0]),
    ensures
        leading(run + rest, class) == run.len(),
        lead(run + rest, class) == run,
        after_lead(run + rest, class) == rest,
        trim_start_of(run + rest, class) == rest,
    decreases run.len(),
{
    let whole = run + rest;
    if run.len() == 0 {
        assert(whole =~= rest);
        assert(lead(whole, class) =~= run);
        assert(after_lead(whole, class) =~= rest);
    } else {
        let shorter = run.subrange(1, run.len() as int);
        assert(whole[0] == run[0]);
        assert(whole.subrange(1, whole.len() as int) =~= shorter + rest);
        assert forall|i: int| 0 <= i < shorter.len() implies class.holds(#[trigger] shorter[i]) by {
            assert(shorter[i] == run[i + 1]);
        }
        lemma_leading_run(shorter, rest, class);
        assert(lead(whole, class) =~= run);
        assert(after_lead(whole, class) =~= rest);
    }
}

} // verus!
