//! Character-level text utilities: white space, stripping, searching, and the
//! bridge between strings and vectors of characters.
//!
//! Specifications are stated over `Seq<char>`; the executable functions work on
//! a range `chars[lo..hi]` of a character vector so that no text is copied
//! until a value is kept.

use vstd::prelude::*;

verus! {

/// Whether `c` is a Unicode white-space character.
pub open spec fn is_space(c: char) -> bool {
    let n = c as u32;
    ||| 0x09 <= n <= 0x0D
    ||| n == 0x20
    ||| n == 0x85
    ||| n == 0xA0
    ||| n == 0x1680
    ||| 0x2000 <= n <= 0x200A
    ||| n == 0x2028
    ||| n == 0x2029
    ||| n == 0x202F
    ||| n == 0x205F
    ||| n == 0x3000
}

/// Tests a character for Unicode white space.
pub fn is_whitespace(c: char) -> (r: bool)
    ensures
        r == is_space(c),
{
    let n: u32 = c as u32;
    (0x09 <= n && n <= 0x0D) || n == 0x20 || n == 0x85 || n == 0xA0 || n == 0x1680 || (0x2000 <= n
        && n <= 0x200A) || n == 0x2028 || n == 0x2029 || n == 0x202F || n == 0x205F || n == 0x3000
}

/// A set of characters that can be stripped from the ends of a text.
#[derive(Clone, Copy, Debug, PartialEq, Eq)]
pub enum CharClass {
    /// Unicode white space.
    Space,
    /// The square brackets `[` and `]`.
    Bracket,
}

/// Whether `c` belongs to `class`.
pub open spec fn in_class(class: CharClass, c: char) -> bool {
    match class {
        CharClass::Space => is_space(c),
        CharClass::Bracket => c == '[' || c == ']',
    }
}

/// Tests whether `c` belongs to `class`.
pub fn has_class(class: CharClass, c: char) -> (r: bool)
    ensures
        r == in_class(class, c),
{
    match class {
        CharClass::Space => is_whitespace(c),
        CharClass::Bracket => c == '[' || c == ']',
    }
}

/// How many characters at the start of `s` belong to `class`.
pub open spec fn leading(s: Seq<char>, class: CharClass) -> nat
    decreases s.len(),
{
    if s.len() > 0 && in_class(class, s[0]) {
        1 + leading(s.drop_first(), class)
    } else {
        0
    }
}

/// How many characters at the end of `s` belong to `class`.
pub open spec fn trailing(s: Seq<char>, class: CharClass) -> nat
    decreases s.len(),
{
    if s.len() > 0 && in_class(class, s.last()) {
        1 + trailing(s.drop_last(), class)
    } else {
        0
    }
}

/// `s` without the characters of `class` at its start.
pub open spec fn strip_start(s: Seq<char>, class: CharClass) -> Seq<char> {
    s.skip(leading(s, class) as int)
}

/// `s` without the characters of `class` at its end.
pub open spec fn strip_end(s: Seq<char>, class: CharClass) -> Seq<char> {
    s.take(s.len() - trailing(s, class))
}

/// `s` without the characters of `class` at both ends.
pub open spec fn strip(s: Seq<char>, class: CharClass) -> Seq<char> {
    strip_end(strip_start(s, class), class)
}

/// `s` without surrounding white space.
pub open spec fn trim(s: Seq<char>) -> Seq<char> {
    strip(s, CharClass::Space)
}

/// `s` neither starts nor ends with white space.
pub open spec fn is_trimmed(s: Seq<char>) -> bool {
    s.len() > 0 ==> !is_space(s[0]) && !is_space(s.last())
}

/// Index of the first occurrence of `c` in `s`, or `s.len()` where there is none.
pub open spec fn find(s: Seq<char>, c: char) -> nat
    decreases s.len(),
{
    if s.len() == 0 || s[0] == c {
        0
    } else {
        1 + find(s.drop_first(), c)
    }
}

/// The pieces of `text` between the occurrences of `sep`: one more than the
/// number of occurrences, empty pieces included.
pub open spec fn split(text: Seq<char>, sep: char) -> Seq<Seq<char>>
    decreases text.len(),
{
    let n = find(text, sep) as int;
    if n >= text.len() {
        seq![text]
    } else {
        seq![text.take(n)] + split(text.skip(n + 1), sep)
    }
}

/// `line` without the carriage return at its end, where it has one.
pub open spec fn strip_cr(line: Seq<char>) -> Seq<char> {
    if line.len() > 0 && line.last() == '\r' {
        line.drop_last()
    } else {
        line
    }
}

/// The lines of `text`. A line ends at a line feed; a carriage return just
/// before that line feed belongs to the line ending. What follows the last
/// line feed is a line of its own unless it is empty.
pub open spec fn text_lines(text: Seq<char>) -> Seq<Seq<char>> {
    let pieces = split(text, '\n');
    let ended = Seq::new((pieces.len() - 1) as nat, |k: int| strip_cr(pieces[k]));
    if pieces.last().len() == 0 {
        ended
    } else {
        ended.push(pieces.last())
    }
}

/// `leading` is the length of the longest prefix made of `class`.
pub proof fn lemma_leading(s: Seq<char>, class: CharClass)
    ensures
        leading(s, class) <= s.len(),
        forall|j: int| 0 <= j < leading(s, class) ==> in_class(class, #[trigger] s[j]),
        leading(s, class) < s.len() ==> !in_class(class, s[leading(s, class) as int]),
    decreases s.len(),
{
    if s.len() > 0 && in_class(class, s[0]) {
        let rest = s.drop_first();
        lemma_leading(rest, class);
        assert forall|j: int| 0 <= j < leading(s, class) implies in_class(class, #[trigger] s[j]) by {
            if j > 0 {
                assert(s[j] == rest[j - 1]);
            }
        }
        if leading(s, class) < s.len() {
            assert(s[leading(s, class) as int] == rest[leading(rest, class) as int]);
        }
    }
}

/// A prefix made of `class` that cannot be extended has length `leading`.
pub proof fn lemma_leading_is(s: Seq<char>, class: CharClass, n: int)
    requires
        0 <= n <= s.len(),
        forall|j: int| 0 <= j < n ==> in_class(class, #[trigger] s[j]),
        n < s.len() ==> !in_class(class, s[n]),
    ensures
        leading(s, class) == n,
    decreases s.len(),
{
    if n > 0 {
        let rest = s.drop_first();
        assert(in_class(class, s[0]));
        assert forall|j: int| 0 <= j < n - 1 implies in_class(class, #[trigger] rest[j]) by {
            assert(rest[j] == s[j + 1]);
        }
        lemma_leading_is(rest, class, n - 1);
    }
}

/// `trailing` is the length of the longest suffix made of `class`.
pub proof fn lemma_trailing(s: Seq<char>, class: CharClass)
    ensures
        trailing(s, class) <= s.len(),
        forall|j: int|
            s.len() - trailing(s, class) <= j < s.len() ==> in_class(class, #[trigger] s[j]),
        trailing(s, class) < s.len() ==> !in_class(
            class,
            s[s.len() - trailing(s, class) - 1],
        ),
    decreases s.len(),
{
    if s.len() > 0 && in_class(class, s.last()) {
        let rest = s.drop_last();
        lemma_trailing(rest, class);
        assert forall|j: int| s.len() - trailing(s, class) <= j < s.len() implies in_class(
            class,
            #[trigger] s[j],
        ) by {
            if j < s.len() - 1 {
                assert(s[j] == rest[j]);
            }
        }
        if trailing(s, class) < s.len() {
            assert(s[s.len() - trailing(s, class) - 1] == rest[rest.len() - trailing(rest, class)
                - 1]);
        }
    }
}

/// A suffix made of `class` that cannot be extended has length `trailing`.
pub proof fn lemma_trailing_is(s: Seq<char>, class: CharClass, n: int)
    requires
        0 <= n <= s.len(),
        forall|j: int| s.len() - n <= j < s.len() ==> in_class(class, #[trigger] s[j]),
        n < s.len() ==> !in_class(class, s[s.len() - n - 1]),
    ensures
        trailing(s, class) == n,
    decreases s.len(),
{
    if n > 0 {
        let rest = s.drop_last();
        assert(in_class(class, s[s.len() - 1]));
        assert forall|j: int| rest.len() - (n - 1) <= j < rest.len() implies in_class(
            class,
            #[trigger] rest[j],
        ) by {
            assert(rest[j] == s[j]);
        }
        lemma_trailing_is(rest, class, n - 1);
    }
}

/// What `strip` returns is a range of its argument whose ends are outside `class`.
pub proof fn lemma_strip(s: Seq<char>, class: CharClass)
    ensures
        leading(s, class) + trailing(strip_start(s, class), class) <= s.len(),
        strip(s, class) == s.subrange(
            leading(s, class) as int,
            s.len() - trailing(strip_start(s, class), class),
        ),
        strip(s, class).len() > 0 ==> !in_class(class, strip(s, class)[0]) && !in_class(
            class,
            strip(s, class).last(),
        ),
{
    lemma_leading(s, class);
    let mid = strip_start(s, class);
    lemma_trailing(mid, class);
    assert(strip(s, class) =~= s.subrange(
        leading(s, class) as int,
        s.len() - trailing(mid, class),
    ));
    if strip(s, class).len() > 0 {
        assert(strip(s, class)[0] == s[leading(s, class) as int]);
        assert(strip(s, class).last() == mid[mid.len() - trailing(mid, class) - 1]);
    }
}

/// A range of `s` bounded by characters outside `class`, with nothing but
/// `class` around it, is what `strip` returns. So is an empty range of a text
/// made of `class` alone.
pub proof fn lemma_strip_is(s: Seq<char>, class: CharClass, a: int, b: int)
    requires
        0 <= a <= b <= s.len(),
        forall|j: int| 0 <= j < a ==> in_class(class, #[trigger] s[j]),
        forall|j: int| b <= j < s.len() ==> in_class(class, #[trigger] s[j]),
        a < b ==> !in_class(class, s[a]) && !in_class(class, s[b - 1]),
    ensures
        strip(s, class) == s.subrange(a, b),
{
    if a < b {
        lemma_leading_is(s, class, a);
        let mid = s.skip(a);
        assert forall|j: int| mid.len() - (s.len() - b) <= j < mid.len() implies in_class(
            class,
            #[trigger] mid[j],
        ) by {
            assert(mid[j] == s[j + a]);
        }
        assert(mid[mid.len() - (s.len() - b) - 1] == s[b - 1]);
        lemma_trailing_is(mid, class, s.len() - b);
        assert(strip(s, class) =~= s.subrange(a, b));
    } else {
        lemma_leading_is(s, class, s.len() as int);
        let mid = s.skip(s.len() as int);
        lemma_trailing_is(mid, class, 0);
        assert(strip(s, class) =~= s.subrange(a, b));
    }
}

/// `find` is the position of the first `c`, or the length where `c` does not occur.
pub proof fn lemma_find(s: Seq<char>, c: char)
    ensures
        find(s, c) <= s.len(),
        forall|j: int| 0 <= j < find(s, c) ==> #[trigger] s[j] != c,
        find(s, c) < s.len() ==> s[find(s, c) as int] == c,
    decreases s.len(),
{
    if !(s.len() == 0 || s[0] == c) {
        let rest = s.drop_first();
        lemma_find(rest, c);
        assert forall|j: int| 0 <= j < find(s, c) implies #[trigger] s[j] != c by {
            if j > 0 {
                assert(s[j] == rest[j - 1]);
            }
        }
        if find(s, c) < s.len() {
            assert(s[find(s, c) as int] == rest[find(rest, c) as int]);
        }
    }
}

/// A position before which `c` does not occur, and which holds `c` or is the
/// length, is `find`.
pub proof fn lemma_find_is(s: Seq<char>, c: char, n: int)
    requires
        0 <= n <= s.len(),
        forall|j: int| 0 <= j < n ==> #[trigger] s[j] != c,
        n < s.len() ==> s[n] == c,
    ensures
        find(s, c) == n,
    decreases s.len(),
{
    if n > 0 {
        let rest = s.drop_first();
        assert(s[0] != c);
        assert forall|j: int| 0 <= j < n - 1 implies #[trigger] rest[j] != c by {
            assert(rest[j] == s[j + 1]);
        }
        lemma_find_is(rest, c, n - 1);
    }
}

/// `String::push` of the standard library, which this crate trusts to do what
/// its documentation says: it appends `c` to the end of `s` and changes
/// nothing else of it.
pub assume_specification[ String::push ](s: &mut String, c: char)
    ensures
        final(s)@ == old(s)@.push(c),
;

/// The characters of `s`, in order.
pub fn to_chars(s: &str) -> (v: Vec<char>)
    ensures
        v@ == s@,
{
    let mut v: Vec<char> = Vec::new();
    for c in it: s.chars()
        invariant
            it.seq() == s@,
            v@ == it.seq().take(it.index()),
    {
        v.push(c);
    }
    v
}

/// The string made of the characters `chars[from..to]`.
pub fn to_string(chars: &Vec<char>, from: usize, to: usize) -> (s: String)
    requires
        from <= to <= chars.len(),
    ensures
        s@ == chars@.subrange(from as int, to as int),
{
    let mut s = String::new();
    let mut i: usize = from;
    while i < to
        invariant
            from <= i <= to <= chars.len(),
            s@ == chars@.subrange(from as int, i as int),
        decreases to - i,
    {
        s.push(chars[i]);
        i += 1;
    }
    s
}

/// The bounds of `chars[lo..hi]` with the characters of `class` stripped from
/// both ends.
pub fn strip_range(chars: &Vec<char>, lo: usize, hi: usize, class: CharClass) -> (r: (
    usize,
    usize,
))
    requires
        lo <= hi <= chars.len(),
    ensures
        lo <= r.0 <= r.1 <= hi,
        r.0 == lo + leading(chars@.subrange(lo as int, hi as int), class),
        r.1 == hi - trailing(strip_start(chars@.subrange(lo as int, hi as int), class), class),
        chars@.subrange(r.0 as int, r.1 as int) == strip(
            chars@.subrange(lo as int, hi as int),
            class,
        ),
{
    let ghost s = chars@.subrange(lo as int, hi as int);
    let mut a: usize = lo;
    while a < hi && has_class(class, chars[a])
        invariant
            lo <= a <= hi <= chars.len(),
            s == chars@.subrange(lo as int, hi as int),
            forall|j: int| 0 <= j < a - lo ==> in_class(class, #[trigger] s[j]),
        decreases hi - a,
    {
        a += 1;
    }
    proof {
        lemma_leading_is(s, class, a - lo);
    }
    let ghost mid = strip_start(s, class);
    assert(mid == chars@.subrange(a as int, hi as int));
    let mut b: usize = hi;
    while b > a && has_class(class, chars[b - 1])
        invariant
            a <= b <= hi <= chars.len(),
            mid == chars@.subrange(a as int, hi as int),
            forall|j: int| b - a <= j < hi - a ==> in_class(class, #[trigger] mid[j]),
        decreases b,
    {
        b -= 1;
    }
    proof {
        lemma_trailing_is(mid, class, hi - b);
        assert(chars@.subrange(a as int, b as int) =~= strip(s, class));
    }
    (a, b)
}

/// The position of the first `c` in `chars[lo..hi]`, or `hi` where there is none.
pub fn find_char(chars: &Vec<char>, lo: usize, hi: usize, c: char) -> (p: usize)
    requires
        lo <= hi <= chars.len(),
    ensures
        lo <= p <= hi,
        p - lo == find(chars@.subrange(lo as int, hi as int), c),
{
    let ghost s = chars@.subrange(lo as int, hi as int);
    let mut p: usize = lo;
    while p < hi && chars[p] != c
        invariant
            lo <= p <= hi <= chars.len(),
            s == chars@.subrange(lo as int, hi as int),
            forall|j: int| 0 <= j < p - lo ==> #[trigger] s[j] != c,
        decreases hi - p,
    {
        p += 1;
    }
    proof {
        lemma_find_is(s, c, p - lo);
    }
    p
}

/// Whether `chars[lo..hi]` spells `text`.
pub fn range_is(chars: &Vec<char>, lo: usize, hi: usize, text: &str) -> (r: bool)
    requires
        lo <= hi <= chars.len(),
    ensures
        r == (chars@.subrange(lo as int, hi as int) == text@),
{
    let wanted = to_chars(text);
    if wanted.len() != hi - lo {
        return false;
    }
    let ghost s = chars@.subrange(lo as int, hi as int);
    let mut i: usize = 0;
    while i < wanted.len()
        invariant
            lo <= hi <= chars.len(),
            wanted.len() == hi - lo,
            i <= wanted.len(),
            wanted@ == text@,
            s == chars@.subrange(lo as int, hi as int),
            forall|j: int| 0 <= j < i ==> #[trigger] s[j] == wanted@[j],
        decreases wanted.len() - i,
    {
        if chars[lo + i] != wanted[i] {
            assert(s[i as int] != wanted@[i as int]);
            return false;
        }
        i += 1;
    }
    assert(s =~= wanted@);
    true
}

/// The pieces of `s[from..]` for a piece that starts at `from` and ends at the
/// first `sep` after it.
pub proof fn lemma_split_step(s: Seq<char>, sep: char, from: int, to: int)
    requires
        0 <= from <= to <= s.len(),
        to - from == find(s.subrange(from, s.len() as int), sep),
    ensures
        split(s.subrange(from, s.len() as int), sep) == if to < s.len() {
            seq![s.subrange(from, to)] + split(s.subrange(to + 1, s.len() as int), sep)
        } else {
            seq![s.subrange(from, to)]
        },
{
    let rest = s.subrange(from, s.len() as int);
    if to < s.len() {
        assert(rest.take(to - from) =~= s.subrange(from, to));
        assert(rest.skip(to - from + 1) =~= s.subrange(to + 1, s.len() as int));
    } else {
        assert(rest =~= s.subrange(from, to));
    }
}

/// The text of each range of `ranges`, in order.
pub open spec fn range_texts(s: Seq<char>, ranges: Seq<(usize, usize)>) -> Seq<Seq<char>> {
    Seq::new(ranges.len(), |k: int| s.subrange(ranges[k].0 as int, ranges[k].1 as int))
}

/// Every range of `ranges` lies within `lo..hi`.
pub open spec fn ranges_within(ranges: Seq<(usize, usize)>, lo: int, hi: int) -> bool {
    forall|k: int| 0 <= k < ranges.len() ==> lo <= (#[trigger] ranges[k]).0 <= ranges[k].1 <= hi
}

/// The ranges cover `lo..hi` in order, with one character between each range
/// and the next.
pub open spec fn ranges_chained(ranges: Seq<(usize, usize)>, lo: int, hi: int) -> bool {
    &&& ranges.len() > 0
    &&& ranges[0].0 == lo
    &&& ranges.last().1 == hi
    &&& forall|k: int|
        0 <= k < ranges.len() - 1 ==> (#[trigger] ranges[k]).1 + 1 == ranges[k + 1].0
}

/// The bounds of the pieces of `chars[lo..hi]` between the occurrences of `sep`.
pub fn split_ranges(chars: &Vec<char>, lo: usize, hi: usize, sep: char) -> (ranges: Vec<
    (usize, usize),
>)
    requires
        lo <= hi <= chars.len(),
    ensures
        ranges_within(ranges@, lo as int, hi as int),
        ranges_chained(ranges@, lo as int, hi as int),
        range_texts(chars@, ranges@) == split(chars@.subrange(lo as int, hi as int), sep),
{
    let ghost s = chars@.subrange(0, hi as int);
    let ghost all = split(s.subrange(lo as int, hi as int), sep);
    assert(s.subrange(lo as int, hi as int) =~= chars@.subrange(lo as int, hi as int));
    let mut ranges: Vec<(usize, usize)> = Vec::new();
    let mut pos: usize = lo;
    let mut done = false;
    assert(range_texts(chars@, ranges@) =~= Seq::<Seq<char>>::empty());
    while !done
        invariant
            lo <= pos <= hi <= chars.len(),
            s == chars@.subrange(0, hi as int),
            ranges_within(ranges@, lo as int, hi as int),
            ranges.len() == 0 ==> pos == lo && !done,
            ranges.len() > 0 ==> ranges@[0].0 == lo,
            ranges.len() > 0 && !done ==> ranges@.last().1 + 1 == pos,
            done ==> ranges.len() > 0 && ranges@.last().1 == hi,
            forall|k: int|
                0 <= k < ranges.len() - 1 ==> (#[trigger] ranges@[k]).1 + 1 == ranges@[k + 1].0,
            !done ==> all == range_texts(chars@, ranges@) + split(
                s.subrange(pos as int, hi as int),
                sep,
            ),
            done ==> all == range_texts(chars@, ranges@),
        decreases hi - pos + (if done { 0int } else { 1int }),
    {
        let ghost before = ranges@;
        assert(chars@.subrange(pos as int, hi as int) =~= s.subrange(pos as int, hi as int));
        let end = find_char(chars, pos, hi, sep);
        proof {
            lemma_split_step(s, sep, pos as int, end as int);
        }
        ranges.push((pos, end));
        proof {
            assert(s.subrange(pos as int, end as int) =~= chars@.subrange(pos as int, end as int));
            assert(range_texts(chars@, ranges@) =~= range_texts(chars@, before) + seq![
                s.subrange(pos as int, end as int),
            ]);
        }
        if end < hi {
            pos = end + 1;
        } else {
            done = true;
        }
    }
    ranges
}

/// The bounds of the lines of `chars`.
pub(crate) fn line_ranges(chars: &Vec<char>) -> (lines: Vec<(usize, usize)>)
    ensures
        ranges_within(lines@, 0, chars.len() as int),
        range_texts(chars@, lines@) == text_lines(chars@),
{
    let n = chars.len();
    let pieces = split_ranges(chars, 0, n, '\n');
    assert(chars@.subrange(0, n as int) =~= chars@);
    let ghost texts = split(chars@, '\n');
    assert(texts.len() == pieces.len());
    let last = pieces.len() - 1;
    let mut lines: Vec<(usize, usize)> = Vec::new();
    let mut k: usize = 0;
    while k < last
        invariant
            k <= last,
            last == pieces.len() - 1,
            n == chars.len(),
            texts == range_texts(chars@, pieces@),
            ranges_within(pieces@, 0, n as int),
            ranges_within(lines@, 0, n as int),
            lines.len() == k,
            forall|j: int| 0 <= j < k ==> #[trigger] range_texts(chars@, lines@)[j] == strip_cr(texts[j]),
        decreases last - k,
    {
        let (a, b) = pieces[k];
        let ghost before = lines@;
        assert(texts[k as int] == chars@.subrange(a as int, b as int));
        let end: usize = if b > a && chars[b - 1] == '\r' {
            b - 1
        } else {
            b
        };
        lines.push((a, end));
        proof {
            assert(chars@.subrange(a as int, end as int) =~= strip_cr(texts[k as int]));
            assert forall|j: int| 0 <= j < k + 1 implies #[trigger] range_texts(
                chars@,
                lines@,
            )[j] == strip_cr(texts[j]) by {
                if j < k {
                    assert(lines@[j] == before[j]);
                    assert(range_texts(chars@, before)[j] == strip_cr(texts[j]));
                }
            }
        }
        k += 1;
    }
    let (a, b) = pieces[last];
    assert(texts[last as int] == chars@.subrange(a as int, b as int));
    let ghost ended = range_texts(chars@, lines@);
    if a != b {
        lines.push((a, b));
        assert(range_texts(chars@, lines@) =~= ended.push(texts[last as int]));
    }
    assert(ended =~= Seq::new((texts.len() - 1) as nat, |k: int| strip_cr(texts[k])));
    lines
}

} // verus!
