//! Text as sequences of characters: trimming, splitting, replacing, padding,
//! and decimal numbers.
use vstd::prelude::*;

verus! {

/// `String::push` appends one character.
pub assume_specification[ String::push ](s: &mut String, c: char)
    ensures
        final(s)@ == old(s)@.push(c),
;

/// `String::push_str` appends a whole string slice.
pub assume_specification[ String::push_str ](s: &mut String, t: &str)
    ensures
        final(s)@ == old(s)@ + t@,
;

/// The characters of every string of a sequence.
pub open spec fn texts(v: Seq<String>) -> Seq<Seq<char>> {
    Seq::new(v.len(), |i: int| v[i]@)
}

/// Unicode white space.
pub open spec fn is_white(c: char) -> bool {
    ||| '\u{9}' <= c <= '\u{d}'
    ||| c == '\u{20}'
    ||| c == '\u{85}'
    ||| c == '\u{a0}'
    ||| c == '\u{1680}'
    ||| '\u{2000}' <= c <= '\u{200a}'
    ||| c == '\u{2028}'
    ||| c == '\u{2029}'
    ||| c == '\u{202f}'
    ||| c == '\u{205f}'
    ||| c == '\u{3000}'
}

/// An ASCII decimal digit.
pub open spec fn is_digit(c: char) -> bool {
    '0' <= c <= '9'
}

/// An ASCII letter.
pub open spec fn is_letter(c: char) -> bool {
    ('a' <= c <= 'z') || ('A' <= c <= 'Z')
}

/// The text without its leading white space.
pub open spec fn without_leading_white(s: Seq<char>) -> Seq<char>
    decreases s.len(),
{
    if s.len() > 0 && is_white(s[0]) {
        without_leading_white(s.drop_first())
    } else {
        s
    }
}

/// The text without its trailing white space.
pub open spec fn without_trailing_white(s: Seq<char>) -> Seq<char>
    decreases s.len(),
{
    if s.len() > 0 && is_white(s.last()) {
        without_trailing_white(s.drop_last())
    } else {
        s
    }
}

/// The text without white space at either end.
pub open spec fn trimmed(s: Seq<char>) -> Seq<char> {
    without_trailing_white(without_leading_white(s))
}

/// Where `c` first stands in `s`, or the length of `s` if it does not.
pub open spec fn find_char(s: Seq<char>, c: char) -> int
    decreases s.len(),
{
    if s.len() == 0 || s[0] == c {
        0
    } else {
        1 + find_char(s.drop_first(), c)
    }
}

/// A line without the carriage return that precedes its line feed.
pub open spec fn without_cr(s: Seq<char>) -> Seq<char> {
    if s.len() > 0 && s.last() == '\r' {
        s.drop_last()
    } else {
        s
    }
}

/// The lines of a text: each ends at a line feed (a carriage return just before
/// it belongs to the line ending), the last one also at the end of the text.
pub open spec fn lines_of(s: Seq<char>) -> Seq<Seq<char>>
    decreases s.len(),
{
    let n = find_char(s, '\n');
    if s.len() == 0 {
        Seq::empty()
    } else if 0 <= n < s.len() {
        seq![without_cr(s.take(n))] + lines_of(s.skip(n + 1))
    } else {
        seq![s]
    }
}

/// The pieces of a text between the occurrences of a separator.
pub open spec fn split_on(s: Seq<char>, sep: char) -> Seq<Seq<char>>
    decreases s.len(),
{
    let n = find_char(s, sep);
    if 0 <= n < s.len() {
        seq![s.take(n)] + split_on(s.skip(n + 1), sep)
    } else {
        seq![s]
    }
}

/// How many characters stand before the first white space.
pub open spec fn word_len(s: Seq<char>) -> nat
    decreases s.len(),
{
    if s.len() == 0 || is_white(s[0]) {
        0
    } else {
        1 + word_len(s.drop_first())
    }
}

/// The maximal runs of characters that are not white space.
pub open spec fn words_of(s: Seq<char>) -> Seq<Seq<char>>
    decreases s.len(),
{
    if s.len() == 0 {
        Seq::empty()
    } else if is_white(s[0]) {
        words_of(s.drop_first())
    } else {
        let n = word_len(s);
        if 0 < n <= s.len() {
            seq![s.take(n as int)] + words_of(s.skip(n as int))
        } else {
            Seq::empty()
        }
    }
}

/// Whether `s` begins with `p`.
pub open spec fn begins_with(s: Seq<char>, p: Seq<char>) -> bool {
    p.len() <= s.len() && s.take(p.len() as int) == p
}

/// Whether `s` finishes with `p`.
pub open spec fn finishes_with(s: Seq<char>, p: Seq<char>) -> bool {
    p.len() <= s.len() && s.skip(s.len() - p.len()) == p
}

/// Whether `p` occurs somewhere in `s`.
pub open spec fn occurs_in(p: Seq<char>, s: Seq<char>) -> bool {
    exists|i: int| 0 <= i <= s.len() && begins_with(#[trigger] s.skip(i), p)
}

/// `s` with every occurrence of `p` replaced by `by`, from left to right and
/// without overlap.
pub open spec fn replaced(s: Seq<char>, p: Seq<char>, by: Seq<char>) -> Seq<char>
    decreases s.len(),
{
    if s.len() == 0 || p.len() == 0 {
        s
    } else if begins_with(s, p) {
        by + replaced(s.skip(p.len() as int), p, by)
    } else {
        seq![s[0]] + replaced(s.drop_first(), p, by)
    }
}

/// The parts, with `sep` between any two neighbours.
pub open spec fn joined(parts: Seq<Seq<char>>, sep: Seq<char>) -> Seq<char>
    decreases parts.len(),
{
    if parts.len() == 0 {
        Seq::empty()
    } else if parts.len() == 1 {
        parts[0]
    } else {
        joined(parts.drop_last(), sep) + sep + parts.last()
    }
}

/// All parts, one after the other.
pub open spec fn concatenated(parts: Seq<Seq<char>>) -> Seq<char>
    decreases parts.len(),
{
    if parts.len() == 0 {
        Seq::empty()
    } else {
        concatenated(parts.drop_last()) + parts.last()
    }
}

/// The character of a decimal digit.
pub open spec fn digit_char(d: nat) -> char {
    (48 + d) as char
}

/// A number in decimal, without leading zeros.
pub open spec fn dec(n: nat) -> Seq<char>
    decreases n,
{
    if n < 10 {
        seq![digit_char(n)]
    } else {
        dec(n / 10).push(digit_char(n % 10))
    }
}

/// An integer in decimal, with a minus sign where it is negative.
pub open spec fn dec_int(i: int) -> Seq<char> {
    if i < 0 {
        seq!['-'] + dec((-i) as nat)
    } else {
        dec(i as nat)
    }
}

/// `n` copies of a character.
pub open spec fn copies(c: char, n: nat) -> Seq<char> {
    Seq::new(n, |i: int| c)
}

/// How many characters a text lacks to a width.
pub open spec fn missing(s: Seq<char>, width: nat) -> nat {
    if s.len() < width {
        (width - s.len()) as nat
    } else {
        0
    }
}

/// The text moved to the right end of a field of at least `width` characters.
pub open spec fn right_aligned(s: Seq<char>, width: nat, fill: char) -> Seq<char> {
    copies(fill, missing(s, width)) + s
}

/// The text at the left end of a field of at least `width` characters.
pub open spec fn left_aligned(s: Seq<char>, width: nat) -> Seq<char> {
    s + copies(' ', missing(s, width))
}

/// Whether a text is made of decimal digits only.
pub open spec fn all_digits(s: Seq<char>) -> bool {
    forall|i: int| 0 <= i < s.len() ==> is_digit(#[trigger] s[i])
}

/// The number that a row of decimal digits denotes.
pub open spec fn digits_value(s: Seq<char>) -> nat
    decreases s.len(),
{
    if s.len() == 0 {
        0
    } else {
        digits_value(s.drop_last()) * 10 + (s.last() as nat - 48) as nat
    }
}

/// The number that a text reads as: decimal digits, at least one, with an
/// optional plus sign before them.
pub open spec fn read_nat(s: Seq<char>) -> Option<nat> {
    let body = if s.len() > 0 && s[0] == '+' {
        s.drop_first()
    } else {
        s
    };
    if body.len() > 0 && all_digits(body) {
        Some(digits_value(body))
    } else {
        None
    }
}

/// [`read_nat`] within the bounds of a machine integer.
pub open spec fn read_bounded(s: Seq<char>, max: nat) -> Option<nat> {
    match read_nat(s) {
        Some(n) => if n <= max {
            Some(n)
        } else {
            None
        },
        None => None,
    }
}

/// An ASCII character.
pub open spec fn is_ascii_char(c: char) -> bool {
    c < '\u{80}'
}

/// The lower-case form of an ASCII character.
pub open spec fn ascii_lower(c: char) -> char {
    if 'A' <= c <= 'Z' {
        ((c as u32 + 32) as u32) as char
    } else {
        c
    }
}

/// What `str::to_lowercase` makes of a text.
pub uninterp spec fn lowered(s: Seq<char>) -> Seq<char>;

/// Calls `str::to_lowercase`. Its result is a function of the text alone; on a
/// text of ASCII characters it turns `A` to `Z` into `a` to `z` and leaves
/// every other character as it is.
#[verifier::external_body]
pub(crate) fn lowercase(s: &str) -> (r: String)
    ensures
        r@ == lowered(s@),
        (forall|i: int| 0 <= i < s@.len() ==> is_ascii_char(#[trigger] s@[i])) ==> r@
            == s@.map_values(|c: char| ascii_lower(c)),
{
    s.to_lowercase()
}

/// What the `Debug` form of a string slice looks like.
pub uninterp spec fn quoted(s: Seq<char>) -> Seq<char>;

/// Formats a string slice with `{:?}`. Its result is a function of the text
/// alone.
#[verifier::external_body]
pub(crate) fn quote(s: &str) -> (r: String)
    ensures
        r@ == quoted(s@),
{
    format!("{:?}", s)
}

/// An owned copy of a text.
pub fn owned(s: &str) -> (r: String)
    ensures
        r@ == s@,
{
    s.to_owned()
}

/// The integer that a text reads as: digits behind an optional sign.
pub open spec fn read_int(s: Seq<char>) -> Option<int> {
    if s.len() > 0 && s[0] == '-' {
        let body = s.drop_first();
        if body.len() > 0 && all_digits(body) {
            Some(-(digits_value(body) as int))
        } else {
            None
        }
    } else {
        match read_nat(s) {
            Some(n) => Some(n as int),
            None => None,
        }
    }
}

/// The characters of a string.
pub fn chars_of(s: &str) -> (r: Vec<char>)
    ensures
        r@ == s@,
{
    let mut out: Vec<char> = Vec::new();
    for c in it: s.chars()
        invariant
            out@ == it.seq().take(it.index() as int),
            it.seq() == s@,
    {
        assert(it.seq().take(it.index() as int + 1) == it.seq().take(it.index() as int).push(c));
        out.push(c);
    }
    assert(s@.take(s@.len() as int) == s@);
    out
}

/// Appends the characters `from..to` of `v` to a string.
pub fn push_chars(out: &mut String, v: &Vec<char>, from: usize, to: usize)
    requires
        from <= to <= v.len(),
    ensures
        final(out)@ == old(out)@ + v@.subrange(from as int, to as int),
{
    let mut i: usize = from;
    assert(v@.subrange(from as int, from as int) == Seq::<char>::empty());
    while i < to
        invariant
            from <= i <= to <= v.len(),
            out@ == old(out)@ + v@.subrange(from as int, i as int),
        decreases to - i,
    {
        assert(v@.subrange(from as int, i as int + 1) == v@.subrange(from as int, i as int).push(
            v@[i as int],
        ));
        out.push(v[i]);
        i += 1;
    }
}

/// The string with the characters `from..to` of `v`.
pub fn slice_string(v: &Vec<char>, from: usize, to: usize) -> (r: String)
    requires
        from <= to <= v.len(),
    ensures
        r@ == v@.subrange(from as int, to as int),
{
    let mut out = String::new();
    push_chars(&mut out, v, from, to);
    out
}

/// Tells white space.
pub fn char_is_white(c: char) -> (r: bool)
    ensures
        r == is_white(c),
{
    ('\u{9}' <= c && c <= '\u{d}') || c == '\u{20}' || c == '\u{85}' || c == '\u{a0}' || c
        == '\u{1680}' || ('\u{2000}' <= c && c <= '\u{200a}') || c == '\u{2028}' || c == '\u{2029}'
        || c == '\u{202f}' || c == '\u{205f}' || c == '\u{3000}'
}

/// Tells a decimal digit.
pub fn char_is_digit(c: char) -> (r: bool)
    ensures
        r == is_digit(c),
{
    '0' <= c && c <= '9'
}

/// Tells an ASCII letter.
pub fn char_is_letter(c: char) -> (r: bool)
    ensures
        r == is_letter(c),
{
    ('a' <= c && c <= 'z') || ('A' <= c && c <= 'Z')
}

/// How many white characters lead.
fn leading_white(v: &Vec<char>) -> (n: usize)
    ensures
        n <= v.len(),
        without_leading_white(v@) == v@.skip(n as int),
{
    let mut i: usize = 0;
    assert(v@.skip(0) == v@);
    while i < v.len() && char_is_white(v[i])
        invariant
            i <= v.len(),
            without_leading_white(v@) == without_leading_white(v@.skip(i as int)),
        decreases v.len() - i,
    {
        assert(v@.skip(i as int).drop_first() == v@.skip(i as int + 1));
        i += 1;
    }
    i
}

/// Where the trailing white space of `v[from..]` begins.
fn trailing_white(v: &Vec<char>, from: usize) -> (n: usize)
    requires
        from <= v.len(),
    ensures
        from <= n <= v.len(),
        without_trailing_white(v@.skip(from as int)) == v@.subrange(from as int, n as int),
{
    let mut n: usize = v.len();
    assert(v@.skip(from as int) == v@.subrange(from as int, n as int));
    while from < n && char_is_white(v[n - 1])
        invariant
            from <= n <= v.len(),
            without_trailing_white(v@.skip(from as int)) == without_trailing_white(
                v@.subrange(from as int, n as int),
            ),
        decreases n,
    {
        assert(v@.subrange(from as int, n as int).drop_last() == v@.subrange(
            from as int,
            n as int - 1,
        ));
        n -= 1;
    }
    n
}

/// The text without white space at either end.
pub fn trim(s: &str) -> (r: String)
    ensures
        r@ == trimmed(s@),
{
    let v = chars_of(s);
    let from = leading_white(&v);
    let to = trailing_white(&v, from);
    slice_string(&v, from, to)
}

/// The text without trailing white space.
pub fn trim_end(s: &str) -> (r: String)
    ensures
        r@ == without_trailing_white(s@),
{
    let v = chars_of(s);
    let to = trailing_white(&v, 0);
    assert(v@.skip(0) == v@);
    slice_string(&v, 0, to)
}

/// Whether nothing but white space is there.
pub fn is_blank(s: &str) -> (r: bool)
    ensures
        r == (trimmed(s@).len() == 0),
{
    let t = trim(s);
    t.as_str().is_empty()
}

/// Where `c` first stands at or after `from`.
pub fn index_of(v: &Vec<char>, from: usize, c: char) -> (n: usize)
    requires
        from <= v.len(),
    ensures
        from <= n <= v.len(),
        n - from == find_char(v@.skip(from as int), c),
{
    let mut i: usize = from;
    while i < v.len() && v[i] != c
        invariant
            from <= i <= v.len(),
            find_char(v@.skip(from as int), c) == i - from + find_char(v@.skip(i as int), c),
        decreases v.len() - i,
    {
        assert(v@.skip(i as int).drop_first() == v@.skip(i as int + 1));
        i += 1;
    }
    i
}

/// The lines of a text.
pub fn lines(s: &str) -> (r: Vec<String>)
    ensures
        texts(r@) == lines_of(s@),
{
    let v = chars_of(s);
    let mut out: Vec<String> = Vec::new();
    let mut start: usize = 0;
    assert(v@.skip(0) == v@);
    assert(texts(out@) == Seq::<Seq<char>>::empty());
    while start < v.len()
        invariant
            start <= v.len(),
            texts(out@) + lines_of(v@.skip(start as int)) == lines_of(v@),
        decreases v.len() - start,
    {
        let n = index_of(&v, start, '\n');
        let ghost rest = v@.skip(start as int);
        let ghost before = out@;
        if n == v.len() {
            let line = slice_string(&v, start, n);
            assert(line@ == rest);
            out.push(line);
            assert(texts(out@) == texts(before).push(rest));
            assert(lines_of(rest) == seq![rest]);
            assert(v@.skip(n as int) == Seq::<char>::empty());
            start = n;
        } else {
            let end = if start < n && v[n - 1] == '\r' {
                n - 1
            } else {
                n
            };
            let line = slice_string(&v, start, end);
            assert(rest.take(n - start) == v@.subrange(start as int, n as int));
            assert(line@ == without_cr(rest.take(n - start)));
            out.push(line);
            assert(texts(out@) == texts(before).push(line@));
            assert(rest.skip(n - start + 1) == v@.skip(n as int + 1));
            assert(lines_of(rest) == seq![line@] + lines_of(v@.skip(n as int + 1)));
            assert(texts(before) + (seq![line@] + lines_of(v@.skip(n as int + 1))) == texts(
                before,
            ).push(line@) + lines_of(v@.skip(n as int + 1)));
            start = n + 1;
        }
    }
    assert(lines_of(v@.skip(start as int)) == Seq::<Seq<char>>::empty());
    out
}

/// The pieces between the occurrences of a separator.
pub fn split(s: &str, sep: char) -> (r: Vec<String>)
    ensures
        texts(r@) == split_on(s@, sep),
{
    let v = chars_of(s);
    let mut out: Vec<String> = Vec::new();
    let mut start: usize = 0;
    let mut done = false;
    assert(v@.skip(0) == v@);
    assert(texts(out@) == Seq::<Seq<char>>::empty());
    while !done
        invariant
            start <= v.len(),
            !done ==> texts(out@) + split_on(v@.skip(start as int), sep) == split_on(v@, sep),
            done ==> texts(out@) == split_on(v@, sep),
        decreases v.len() - start + if done { 0int } else { 1int },
    {
        let n = index_of(&v, start, sep);
        let ghost rest = v@.skip(start as int);
        let ghost before = out@;
        let piece = slice_string(&v, start, n);
        assert(rest.take(n - start) == piece@);
        out.push(piece);
        assert(texts(out@) == texts(before).push(piece@));
        if n == v.len() {
            assert(piece@ == rest);
            done = true;
        } else {
            assert(rest.skip(n - start + 1) == v@.skip(n as int + 1));
            assert(texts(before) + (seq![piece@] + split_on(v@.skip(n as int + 1), sep)) == texts(
                before,
            ).push(piece@) + split_on(v@.skip(n as int + 1), sep));
            start = n + 1;
        }
    }
    out
}

/// Where the word that begins at `from` ends.
fn word_end(v: &Vec<char>, from: usize) -> (n: usize)
    requires
        from <= v.len(),
    ensures
        from <= n <= v.len(),
        n - from == word_len(v@.skip(from as int)),
{
    let mut i: usize = from;
    while i < v.len() && !char_is_white(v[i])
        invariant
            from <= i <= v.len(),
            word_len(v@.skip(from as int)) == i - from + word_len(v@.skip(i as int)),
        decreases v.len() - i,
    {
        assert(v@.skip(i as int).drop_first() == v@.skip(i as int + 1));
        i += 1;
    }
    i
}

/// The words of a text.
pub fn words(s: &str) -> (r: Vec<String>)
    ensures
        texts(r@) == words_of(s@),
{
    let v = chars_of(s);
    let mut out: Vec<String> = Vec::new();
    let mut start: usize = 0;
    assert(v@.skip(0) == v@);
    assert(texts(out@) == Seq::<Seq<char>>::empty());
    while start < v.len()
        invariant
            start <= v.len(),
            texts(out@) + words_of(v@.skip(start as int)) == words_of(v@),
        decreases v.len() - start,
    {
        let ghost rest = v@.skip(start as int);
        let ghost before = out@;
        if char_is_white(v[start]) {
            assert(rest.drop_first() == v@.skip(start as int + 1));
            start += 1;
        } else {
            let n = word_end(&v, start);
            let word = slice_string(&v, start, n);
            assert(word_len(rest) > 0);
            assert(rest.take(n - start) == word@);
            out.push(word);
            assert(texts(out@) == texts(before).push(word@));
            assert(rest.skip(n - start) == v@.skip(n as int));
            assert(texts(before) + (seq![word@] + words_of(v@.skip(n as int))) == texts(
                before,
            ).push(word@) + words_of(v@.skip(n as int)));
            start = n;
        }
    }
    assert(words_of(v@.skip(start as int)) == Seq::<Seq<char>>::empty());
    out
}

/// Whether `p` stands in `v` at `at`.
pub fn stands_at(v: &Vec<char>, at: usize, p: &Vec<char>) -> (r: bool)
    requires
        at <= v.len(),
    ensures
        r == begins_with(v@.skip(at as int), p@),
{
    if p.len() > v.len() - at {
        return false;
    }
    let ghost rest = v@.skip(at as int);
    let mut i: usize = 0;
    while i < p.len()
        invariant
            i <= p.len(),
            at + p.len() <= v.len(),
            rest == v@.skip(at as int),
            forall|j: int| 0 <= j < i ==> rest[j] == p@[j],
        decreases p.len() - i,
    {
        if v[at + i] != p[i] {
            assert(rest.take(p@.len() as int)[i as int] != p@[i as int]);
            return false;
        }
        i += 1;
    }
    assert(rest.take(p@.len() as int) == p@);
    true
}

/// Whether `s` begins with `p`.
pub fn starts_with(s: &str, p: &str) -> (r: bool)
    ensures
        r == begins_with(s@, p@),
{
    let v = chars_of(s);
    let q = chars_of(p);
    assert(v@.skip(0) == v@);
    stands_at(&v, 0, &q)
}

/// Whether `s` finishes with `p`.
pub fn ends_with(s: &str, p: &str) -> (r: bool)
    ensures
        r == finishes_with(s@, p@),
{
    let v = chars_of(s);
    let q = chars_of(p);
    if q.len() > v.len() {
        return false;
    }
    let at = v.len() - q.len();
    assert(v@.skip(at as int).take(q@.len() as int) == v@.skip(at as int));
    stands_at(&v, at, &q)
}

/// Whether two strings are the same text.
pub fn same(s: &str, p: &str) -> (r: bool)
    ensures
        r == (s@ == p@),
{
    let v = chars_of(s);
    let q = chars_of(p);
    if v.len() != q.len() {
        return false;
    }
    assert(v@.skip(0) == v@);
    assert(v@.take(v@.len() as int) == v@);
    stands_at(&v, 0, &q)
}

/// What follows `p` in `s`, if `s` begins with it.
pub fn strip_prefix(s: &str, p: &str) -> (r: Option<String>)
    ensures
        match r {
            Some(t) => begins_with(s@, p@) && t@ == s@.skip(p@.len() as int),
            None => !begins_with(s@, p@),
        },
{
    let v = chars_of(s);
    let q = chars_of(p);
    assert(v@.skip(0) == v@);
    if stands_at(&v, 0, &q) {
        assert(v@.subrange(q@.len() as int, v@.len() as int) == v@.skip(q@.len() as int));
        Some(slice_string(&v, q.len(), v.len()))
    } else {
        None
    }
}

/// What precedes `p` in `s`, if `s` finishes with it.
pub fn strip_suffix(s: &str, p: &str) -> (r: Option<String>)
    ensures
        match r {
            Some(t) => finishes_with(s@, p@) && t@ == s@.take(s@.len() - p@.len()),
            None => !finishes_with(s@, p@),
        },
{
    if ends_with(s, p) {
        let v = chars_of(s);
        let q = chars_of(p);
        assert(v@.subrange(0, v@.len() - q@.len()) == v@.take(v@.len() - q@.len()));
        Some(slice_string(&v, 0, v.len() - q.len()))
    } else {
        None
    }
}

/// What stands before and after the first `c`.
pub fn split_once(s: &str, c: char) -> (r: Option<(String, String)>)
    ensures
        match r {
            Some((a, b)) => find_char(s@, c) < s@.len() && a@ == s@.take(find_char(s@, c))
                && b@ == s@.skip(find_char(s@, c) + 1),
            None => find_char(s@, c) >= s@.len(),
        },
{
    let v = chars_of(s);
    assert(v@.skip(0) == v@);
    let n = index_of(&v, 0, c);
    if n < v.len() {
        assert(v@.subrange(0, n as int) == v@.take(n as int));
        assert(v@.subrange(n as int + 1, v@.len() as int) == v@.skip(n as int + 1));
        Some((slice_string(&v, 0, n), slice_string(&v, n + 1, v.len())))
    } else {
        None
    }
}

/// Whether `p` occurs in `s`.
pub fn contains(s: &str, p: &str) -> (r: bool)
    ensures
        r == occurs_in(p@, s@),
{
    let v = chars_of(s);
    let q = chars_of(p);
    let mut i: usize = 0;
    loop
        invariant
            i <= v.len(),
            v@ == s@,
            q@ == p@,
            forall|j: int| 0 <= j < i ==> !begins_with(#[trigger] v@.skip(j), q@),
        decreases v.len() - i,
    {
        if stands_at(&v, i, &q) {
            return true;
        }
        if i == v.len() {
            return false;
        }
        i += 1;
    }
}

/// `s` with every occurrence of `p` replaced by `by`. The pattern is not empty.
pub fn replace(s: &str, p: &str, by: &str) -> (r: String)
    requires
        p@.len() > 0,
    ensures
        r@ == replaced(s@, p@, by@),
{
    let v = chars_of(s);
    let q = chars_of(p);
    let mut out = String::new();
    let mut i: usize = 0;
    assert(v@.skip(0) == v@);
    assert(out@ + replaced(v@, p@, by@) == replaced(v@, p@, by@));
    while i < v.len()
        invariant
            i <= v.len(),
            q@ == p@,
            p@.len() > 0,
            out@ + replaced(v@.skip(i as int), p@, by@) == replaced(v@, p@, by@),
        decreases v.len() - i,
    {
        let ghost rest = v@.skip(i as int);
        let ghost before = out@;
        if stands_at(&v, i, &q) {
            out.push_str(by);
            assert(rest.skip(q@.len() as int) == v@.skip(i + q@.len()));
            assert(before + (by@ + replaced(v@.skip(i + q@.len()), p@, by@)) == before + by@
                + replaced(v@.skip(i + q@.len()), p@, by@));
            i += q.len();
        } else {
            out.push(v[i]);
            assert(rest.drop_first() == v@.skip(i as int + 1));
            assert(before + (seq![rest[0]] + replaced(v@.skip(i as int + 1), p@, by@)) == before.push(
                rest[0],
            ) + replaced(v@.skip(i as int + 1), p@, by@));
            i += 1;
        }
    }
    assert(replaced(v@.skip(i as int), p@, by@) == Seq::<char>::empty());
    assert(out@ + Seq::<char>::empty() == out@);
    out
}

/// The parts with `sep` between neighbours.
pub fn join(parts: &Vec<String>, sep: &str) -> (r: String)
    ensures
        r@ == joined(texts(parts@), sep@),
{
    let mut out = String::new();
    let mut i: usize = 0;
    let ghost all = texts(parts@);
    assert(all.take(0) == Seq::<Seq<char>>::empty());
    while i < parts.len()
        invariant
            i <= parts.len(),
            all == texts(parts@),
            out@ == joined(all.take(i as int), sep@),
        decreases parts.len() - i,
    {
        let ghost next = all.take(i as int + 1);
        assert(next.drop_last() == all.take(i as int));
        assert(next.last() == parts@[i as int]@);
        if i > 0 {
            out.push_str(sep);
        }
        out.push_str(parts[i].as_str());
        if i == 0 {
            assert(out@ == parts@[0]@);
        }
        i += 1;
    }
    assert(all.take(all.len() as int) == all);
    out
}

/// The character of a decimal digit.
pub fn char_of_digit(d: u8) -> (c: char)
    requires
        d < 10,
    ensures
        c == digit_char(d as nat),
{
    match d {
        0 => '0',
        1 => '1',
        2 => '2',
        3 => '3',
        4 => '4',
        5 => '5',
        6 => '6',
        7 => '7',
        8 => '8',
        _ => '9',
    }
}

/// Appends a number in decimal.
pub fn push_dec(out: &mut String, n: u64)
    ensures
        final(out)@ == old(out)@ + dec(n as nat),
    decreases n,
{
    if n < 10 {
        out.push(char_of_digit(n as u8));
        assert(out@ == old(out)@ + dec(n as nat));
    } else {
        push_dec(out, n / 10);
        out.push(char_of_digit((n % 10) as u8));
        assert(out@ == old(out)@ + dec(n as nat));
    }
}

/// A number in decimal.
pub fn dec_string(n: u64) -> (r: String)
    ensures
        r@ == dec(n as nat),
{
    let mut out = String::new();
    push_dec(&mut out, n);
    assert(Seq::<char>::empty() + dec(n as nat) == dec(n as nat));
    out
}

/// An integer in decimal.
pub fn dec_int_string(i: i64) -> (r: String)
    ensures
        r@ == dec_int(i as int),
{
    let mut out = String::new();
    if i < 0 {
        out.push('-');
        push_dec(&mut out, (-(i as i128)) as u64);
        assert(out@ == dec_int(i as int));
    } else {
        push_dec(&mut out, i as u64);
        assert(out@ == dec_int(i as int));
    }
    out
}

/// Appends copies of a character.
pub fn push_copies(out: &mut String, c: char, n: usize)
    ensures
        final(out)@ == old(out)@ + copies(c, n as nat),
{
    let mut i: usize = 0;
    assert(copies(c, 0) == Seq::<char>::empty());
    while i < n
        invariant
            i <= n,
            out@ == old(out)@ + copies(c, i as nat),
        decreases n - i,
    {
        assert(copies(c, i as nat + 1) == copies(c, i as nat).push(c));
        out.push(c);
        i += 1;
    }
}

/// How many characters `s` lacks to `width`.
fn room_left(s: &str, width: usize) -> (n: usize)
    ensures
        n == missing(s@, width as nat),
{
    let v = chars_of(s);
    if v.len() < width {
        width - v.len()
    } else {
        0
    }
}

/// The text at the right end of a field.
pub fn align_right(s: &str, width: usize, fill: char) -> (r: String)
    ensures
        r@ == right_aligned(s@, width as nat, fill),
{
    let mut out = String::new();
    push_copies(&mut out, fill, room_left(s, width));
    out.push_str(s);
    assert(out@ == right_aligned(s@, width as nat, fill));
    out
}

/// The text at the left end of a field.
pub fn align_left(s: &str, width: usize) -> (r: String)
    ensures
        r@ == left_aligned(s@, width as nat),
{
    let mut out = String::new();
    out.push_str(s);
    push_copies(&mut out, ' ', room_left(s, width));
    assert(out@ == left_aligned(s@, width as nat));
    out
}

/// Whether all characters are digits.
pub fn only_digits(v: &Vec<char>) -> (r: bool)
    ensures
        r == all_digits(v@),
{
    let mut i: usize = 0;
    while i < v.len()
        invariant
            i <= v.len(),
            forall|j: int| 0 <= j < i ==> is_digit(#[trigger] v@[j]),
        decreases v.len() - i,
    {
        if !char_is_digit(v[i]) {
            return false;
        }
        i += 1;
    }
    true
}

/// Reads an unsigned number no greater than `max`.
pub fn parse_unsigned(s: &str, max: u64) -> (r: Option<u64>)
    ensures
        match r {
            Some(n) => read_bounded(s@, max as nat) == Some(n as nat),
            None => read_bounded(s@, max as nat) is None,
        },
{
    let v = chars_of(s);
    let from: usize = if v.len() > 0 && v[0] == '+' {
        1
    } else {
        0
    };
    let ghost body = v@.skip(from as int);
    assert(from == 0 ==> body == v@);
    assert(from == 1 ==> body == v@.drop_first());
    if v.len() == from {
        return None;
    }
    let mut n: u64 = 0;
    let mut i: usize = from;
    let mut over = false;
    assert(body.take(0) == Seq::<char>::empty());
    while i < v.len()
        invariant
            from <= i <= v.len(),
            v@ == s@,
            body == v@.skip(from as int),
            body == if s@.len() > 0 && s@[0] == '+' {
                s@.drop_first()
            } else {
                s@
            },
            forall|j: int| 0 <= j < i - from ==> is_digit(#[trigger] body[j]),
            !over ==> n == digits_value(body.take(i - from)) && n <= max,
            over ==> digits_value(body.take(i - from)) > max,
        decreases v.len() - i,
    {
        if !char_is_digit(v[i]) {
            assert(!is_digit(body[i - from]));
            return None;
        }
        let d: u64 = (v[i] as u32 - 48) as u64;
        let ghost next = body.take(i - from + 1);
        assert(next.drop_last() == body.take(i - from));
        assert(next.last() == v@[i as int]);
        assert(digits_value(next) == digits_value(body.take(i - from)) * 10 + d);
        if !over {
            let wide: u128 = n as u128 * 10 + d as u128;
            if wide > max as u128 {
                over = true;
            } else {
                n = wide as u64;
            }
        }
        i += 1;
    }
    assert(body.take(body.len() as int) == body);
    if over {
        None
    } else {
        Some(n)
    }
}

/// Reads a 32-bit integer.
pub fn parse_i32(s: &str) -> (r: Option<i32>)
    ensures
        r == match read_int(s@) {
            Some(i) => if i32::MIN <= i <= i32::MAX {
                Some(i as i32)
            } else {
                None
            },
            None => None,
        },
{
    let v = chars_of(s);
    if v.len() > 0 && v[0] == '-' {
        let body = slice_string(&v, 1, v.len());
        assert(body@ == s@.drop_first());
        let digits = chars_of(body.as_str());
        if digits.len() == 0 || !only_digits(&digits) {
            return None;
        }
        proof {
            lemma_plain_digits(body@);
        }
        match parse_unsigned(body.as_str(), 2_147_483_648) {
            Some(n) => Some((-(n as i64)) as i32),
            None => None,
        }
    } else {
        match parse_unsigned(s, 2_147_483_647) {
            Some(n) => Some(n as i32),
            None => None,
        }
    }
}

/// A search ends at the first place where the character stands.
pub proof fn lemma_find_first(a: Seq<char>, rest: Seq<char>, c: char)
    requires
        !a.contains(c),
        rest.len() > 0 ==> rest[0] == c,
    ensures
        find_char(a + rest, c) == a.len(),
    decreases a.len(),
{
    let s = a + rest;
    if a.len() > 0 {
        assert(s[0] == a[0]);
        assert(a.contains(a[0]));
        assert(s.drop_first() == a.drop_first() + rest);
        assert(!a.drop_first().contains(c)) by {
            if a.drop_first().contains(c) {
                let i = choose|i: int| 0 <= i < a.drop_first().len() && a.drop_first()[i] == c;
                assert(a[i + 1] == c);
            }
        }
        lemma_find_first(a.drop_first(), rest, c);
    } else if rest.len() > 0 {
        assert(s[0] == c);
    }
}

/// A text with no white space at its ends is left as it is by trimming.
pub proof fn lemma_trimmed_whole(s: Seq<char>)
    requires
        s.len() > 0,
        !is_white(s[0]),
        !is_white(s.last()),
    ensures
        trimmed(s) == s,
{
}

/// Zeros before a number leave it as it is.
pub proof fn lemma_leading_zeros(k: nat, s: Seq<char>)
    ensures
        digits_value(copies('0', k) + s) == digits_value(s),
    decreases k + s.len(),
{
    let t = copies('0', k) + s;
    if s.len() > 0 {
        lemma_leading_zeros(k, s.drop_last());
        assert(t.drop_last() == copies('0', k) + s.drop_last());
        assert(t.last() == s.last());
    } else if k > 0 {
        assert(t.drop_last() == copies('0', (k - 1) as nat) + s);
        assert(t.last() == '0');
        lemma_leading_zeros((k - 1) as nat, s);
    } else {
        assert(t == s);
    }
}

/// Digits alone read as the number they write.
pub proof fn lemma_plain_digits(s: Seq<char>)
    requires
        s.len() > 0,
        all_digits(s),
    ensures
        read_nat(s) == Some(digits_value(s)),
{
    assert(is_digit(s[0]));
}

/// A search ends within the text.
pub proof fn lemma_find_bounds(s: Seq<char>, c: char)
    ensures
        0 <= find_char(s, c) <= s.len(),
    decreases s.len(),
{
    if s.len() > 0 && s[0] != c {
        lemma_find_bounds(s.drop_first(), c);
    }
}

/// Decimal digits are what [`dec`] writes, and they read back as the number.
pub proof fn law_dec_reads_back(n: nat)
    ensures
        dec(n).len() > 0,
        all_digits(dec(n)),
        digits_value(dec(n)) == n,
        read_nat(dec(n)) == Some(n),
    decreases n,
{
    reveal_with_fuel(digits_value, 2);
    if n < 10 {
        assert(dec(n).drop_last() == Seq::<char>::empty());
    } else {
        law_dec_reads_back(n / 10);
        assert(dec(n).drop_last() == dec(n / 10));
        assert forall|i: int| 0 <= i < dec(n).len() implies is_digit(#[trigger] dec(n)[i]) by {
            if i < dec(n / 10).len() {
                assert(dec(n)[i] == dec(n / 10)[i]);
            }
        }
    }
    assert(is_digit(dec(n)[0]));
}

/// A text without the pattern is left as it is by a replacement.
pub proof fn law_replace_absent(s: Seq<char>, p: Seq<char>, by: Seq<char>)
    requires
        !occurs_in(p, s),
    ensures
        replaced(s, p, by) == s,
    decreases s.len(),
{
    if s.len() > 0 && p.len() > 0 {
        assert(s.skip(0) == s);
        assert(!begins_with(s, p));
        let rest = s.drop_first();
        assert forall|i: int| 0 <= i <= rest.len() implies !begins_with(#[trigger] rest.skip(i), p) by {
            assert(rest.skip(i) == s.skip(i + 1));
        }
        law_replace_absent(rest, p, by);
        assert(seq![s[0]] + rest == s);
    }
}

// ---------------------------------------------------------------------------
// What the operations on texts keep
// ---------------------------------------------------------------------------

/// A text begins with its first part.
pub proof fn lemma_starts(head: Seq<char>, rest: Seq<char>)
    ensures
        begins_with(head + rest, head),
{
    assert((head + rest).take(head.len() as int) == head);
}

/// A part occurs where it stands.
pub proof fn lemma_occurs_between(p: Seq<char>, before: Seq<char>, after: Seq<char>)
    ensures
        occurs_in(p, before + p + after),
{
    let s = before + p + after;
    let k = before.len() as int;
    assert(s.skip(k) == p + after);
    lemma_starts(p, after);
    assert(begins_with(s.skip(k), p));
}

/// What occurs in a part occurs in the whole.
pub proof fn lemma_occurs_wider(p: Seq<char>, before: Seq<char>, s: Seq<char>, after: Seq<char>)
    requires
        occurs_in(p, s),
    ensures
        occurs_in(p, before + s + after),
{
    let k = choose|k: int| 0 <= k <= s.len() && begins_with(#[trigger] s.skip(k), p);
    let whole = before + s + after;
    let at = before.len() + k;
    assert(whole.skip(at) == s.skip(k) + after);
    assert(whole.skip(at).take(p.len() as int) == s.skip(k).take(p.len() as int));
    assert(begins_with(whole.skip(at), p));
}

/// Each of the parts occurs in what they are joined to.
pub proof fn law_joined_holds_each(parts: Seq<Seq<char>>, sep: Seq<char>, k: int)
    requires
        0 <= k < parts.len(),
    ensures
        occurs_in(parts[k], joined(parts, sep)),
    decreases parts.len(),
{
    let none = Seq::<char>::empty();
    if parts.len() == 1 {
        lemma_occurs_between(parts[0], none, none);
        assert(none + parts[0] + none == parts[0]);
    } else {
        let init = joined(parts.drop_last(), sep);
        if k == parts.len() - 1 {
            lemma_occurs_between(parts[k], init + sep, none);
            assert((init + sep) + parts[k] + none == joined(parts, sep));
        } else {
            law_joined_holds_each(parts.drop_last(), sep, k);
            lemma_occurs_wider(parts[k], none, init, sep + parts.last());
            assert(none + init + (sep + parts.last()) == joined(parts, sep));
        }
    }
}

/// A part in front of others is joined to them by one separator.
pub proof fn lemma_joined_front(first: Seq<char>, parts: Seq<Seq<char>>, sep: Seq<char>)
    requires
        parts.len() > 0,
    ensures
        joined(seq![first] + parts, sep) == first + sep + joined(parts, sep),
    decreases parts.len(),
{
    let all = seq![first] + parts;
    reveal_with_fuel(joined, 2);
    if parts.len() == 1 {
        assert(all.drop_last() == seq![first]);
        assert(joined(all.drop_last(), sep) == first);
    } else {
        assert(all.drop_last() == seq![first] + parts.drop_last());
        lemma_joined_front(first, parts.drop_last(), sep);
        assert(joined(all, sep) == joined(all.drop_last(), sep) + sep + parts.last());
        assert(joined(parts, sep) == joined(parts.drop_last(), sep) + sep + parts.last());
    }
}

/// Trimming takes white space away, all of it at either end, and nothing else.
pub proof fn law_trim_takes_only_white(s: Seq<char>) -> (ends: (int, int))
    ensures
        0 <= ends.0 <= ends.1 <= s.len(),
        trimmed(s) == s.subrange(ends.0, ends.1),
        forall|k: int|
            0 <= k < s.len() && (k < ends.0 || ends.1 <= k) ==> is_white(#[trigger] s[k]),
        trimmed(s).len() > 0 ==> !is_white(trimmed(s)[0]) && !is_white(trimmed(s).last()),
{
    let from = lemma_leading(s);
    let rest = without_leading_white(s);
    let to = law_trailing_takes_only_white(rest);
    assert(rest.take(to) == s.subrange(from, from + to));
    assert forall|k: int| 0 <= k < s.len() && (k < from || from + to <= k) implies is_white(
        #[trigger] s[k],
    ) by {
        if from + to <= k {
            assert(rest[k - from] == s[k]);
        }
    }
    if to > 0 {
        assert(trimmed(s)[0] == rest[0]);
    }
    (from, from + to)
}

proof fn lemma_leading(s: Seq<char>) -> (from: int)
    ensures
        0 <= from <= s.len(),
        without_leading_white(s) == s.skip(from),
        forall|k: int| 0 <= k < from ==> is_white(#[trigger] s[k]),
        from < s.len() ==> !is_white(s[from]),
    decreases s.len(),
{
    if s.len() > 0 && is_white(s[0]) {
        let n = lemma_leading(s.drop_first());
        assert(s.drop_first().skip(n) == s.skip(n + 1));
        assert forall|k: int| 0 <= k < n + 1 implies is_white(#[trigger] s[k]) by {
            if k > 0 {
                assert(s.drop_first()[k - 1] == s[k]);
            }
        }
        n + 1
    } else {
        assert(s.skip(0) == s);
        0
    }
}

/// What is taken off the end of a text is its white space, and no more.
pub proof fn law_trailing_takes_only_white(s: Seq<char>) -> (to: int)
    ensures
        0 <= to <= s.len(),
        without_trailing_white(s) == s.take(to),
        forall|k: int| to <= k < s.len() ==> is_white(#[trigger] s[k]),
        to > 0 ==> !is_white(s[to - 1]),
    decreases s.len(),
{
    if s.len() > 0 && is_white(s.last()) {
        let n = law_trailing_takes_only_white(s.drop_last());
        assert(s.drop_last().take(n) == s.take(n));
        assert forall|k: int| n <= k < s.len() implies is_white(#[trigger] s[k]) by {
            if k < s.len() - 1 {
                assert(s.drop_last()[k] == s[k]);
            }
        }
        n
    } else {
        assert(s.take(s.len() as int) == s);
        s.len() as int
    }
}

/// White space round a text makes no difference to what trimming leaves of it.
pub proof fn law_trim_ignores_white_around(before: Seq<char>, s: Seq<char>, after: Seq<char>)
    requires
        forall|k: int| 0 <= k < before.len() ==> is_white(#[trigger] before[k]),
        forall|k: int| 0 <= k < after.len() ==> is_white(#[trigger] after[k]),
        s.len() > 0 && !is_white(s[0]) && !is_white(s.last()),
    ensures
        trimmed(before + s + after) == s,
{
    let t = before + s + after;
    let ends = law_trim_takes_only_white(t);
    let b = before.len() as int;
    assert(t[b] == s[0]);
    assert(t[b + s.len() - 1] == s.last());
    assert(ends.0 <= b && b + s.len() <= ends.1);
    if ends.0 < b {
        assert(t[ends.0] == before[ends.0]);
        assert(trimmed(t)[0] == t[ends.0]);
    }
    if ends.1 > b + s.len() {
        assert(t[ends.1 - 1] == after[ends.1 - 1 - b - s.len()]);
        assert(trimmed(t).last() == t[ends.1 - 1]);
    }
    assert(t.subrange(b, b + s.len()) == s);
}

/// A text reads as the lines that it was written as: whatever stands before the
/// first line feed is the first line, and the rest follows. A carriage return
/// before the line feed is no part of the line.
pub proof fn law_lines_are_what_was_written(line: Seq<char>, rest: Seq<char>)
    requires
        !line.contains('\n'),
    ensures
        line.len() == 0 || line.last() != '\r' ==> lines_of(line + seq!['\n'] + rest) == seq![line]
            + lines_of(rest),
        lines_of(line + seq!['\r', '\n'] + rest) == seq![line] + lines_of(rest),
        line.len() > 0 ==> lines_of(line) == seq![line],
        lines_of(Seq::<char>::empty()) == Seq::<Seq<char>>::empty(),
{
    let s = line + seq!['\n'] + rest;
    lemma_find_first(line, seq!['\n'] + rest, '\n');
    assert(s == line + (seq!['\n'] + rest));
    assert(s.take(line.len() as int) == line);
    assert(s.skip(line.len() as int + 1) == rest);
    let back = line.push('\r');
    let t = line + seq!['\r', '\n'] + rest;
    assert(!back.contains('\n')) by {
        if back.contains('\n') {
            let k = choose|k: int| 0 <= k < back.len() && back[k] == '\n';
            assert(line[k] == '\n');
        }
    }
    lemma_find_first(back, seq!['\n'] + rest, '\n');
    assert(t == back + (seq!['\n'] + rest));
    assert(t.take(back.len() as int) == back);
    assert(back.drop_last() == line);
    assert(t.skip(back.len() as int + 1) == rest);
    lemma_find_first(line, Seq::empty(), '\n');
    assert(line + Seq::<char>::empty() == line);
}

/// The pieces of a text hold no separator, and joined by it they are the text.
pub proof fn law_split_joins_back(s: Seq<char>, sep: char)
    ensures
        split_on(s, sep).len() > 0,
        joined(split_on(s, sep), seq![sep]) == s,
        forall|k: int|
            0 <= k < split_on(s, sep).len() ==> !(#[trigger] split_on(s, sep)[k]).contains(sep),
    decreases s.len(),
{
    let n = find_char(s, sep);
    lemma_find_bounds(s, sep);
    lemma_find_is_first(s, sep);
    if n < s.len() {
        let rest = s.skip(n + 1);
        let parts = split_on(rest, sep);
        law_split_joins_back(rest, sep);
        lemma_joined_front(s.take(n), parts, seq![sep]);
        assert(s == s.take(n) + seq![sep] + rest);
        assert forall|k: int| 0 <= k < split_on(s, sep).len() implies !(#[trigger] split_on(
            s,
            sep,
        )[k]).contains(sep) by {
            if k > 0 {
                assert(split_on(s, sep)[k] == parts[k - 1]);
            } else if s.take(n).contains(sep) {
                let j = choose|j: int| 0 <= j < n && s.take(n)[j] == sep;
                assert(s[j] == sep);
            }
        }
    } else {
        if s.contains(sep) {
            let j = choose|j: int| 0 <= j < s.len() && s[j] == sep;
            assert(s[j] == sep);
        }
    }
}

/// A search passes over no place where the character stands, and ends at one
/// where there is one.
pub proof fn lemma_find_is_first(s: Seq<char>, c: char)
    ensures
        0 <= find_char(s, c) <= s.len(),
        forall|k: int| 0 <= k < find_char(s, c) ==> #[trigger] s[k] != c,
        find_char(s, c) < s.len() ==> s[find_char(s, c)] == c,
    decreases s.len(),
{
    if s.len() > 0 && s[0] != c {
        let rest = s.drop_first();
        lemma_find_is_first(rest, c);
        assert forall|k: int| 0 <= k < find_char(s, c) implies #[trigger] s[k] != c by {
            if k > 0 {
                assert(rest[k - 1] == s[k]);
            }
        }
    }
}

/// White space before a text adds no word; a word followed by white space comes
/// first, and then those of the rest; a word alone is the only one.
pub proof fn law_words_are_what_was_written(word: Seq<char>, gap: char, rest: Seq<char>)
    requires
        word.len() > 0,
        forall|k: int| 0 <= k < word.len() ==> !is_white(#[trigger] word[k]),
        is_white(gap),
    ensures
        words_of(seq![gap] + rest) == words_of(rest),
        words_of(word + seq![gap] + rest) == seq![word] + words_of(rest),
        words_of(word) == seq![word],
        words_of(Seq::<char>::empty()) == Seq::<Seq<char>>::empty(),
{
    assert((seq![gap] + rest).drop_first() == rest);
    let s = word + seq![gap] + rest;
    assert(s[0] == word[0]);
    lemma_word_len(word, seq![gap] + rest);
    assert(s == word + (seq![gap] + rest));
    assert(s.take(word.len() as int) == word);
    assert(s.skip(word.len() as int) == seq![gap] + rest);
    lemma_word_len(word, Seq::empty());
    assert(word + Seq::<char>::empty() == word);
    assert(word.take(word.len() as int) == word);
    assert(word.skip(word.len() as int) == Seq::<char>::empty());
    reveal_with_fuel(words_of, 2);
}

proof fn lemma_word_len(word: Seq<char>, rest: Seq<char>)
    requires
        forall|k: int| 0 <= k < word.len() ==> !is_white(#[trigger] word[k]),
        rest.len() == 0 || is_white(rest[0]),
    ensures
        word_len(word + rest) == word.len(),
    decreases word.len(),
{
    let s = word + rest;
    if word.len() > 0 {
        assert(s[0] == word[0]);
        assert(s.drop_first() == word.drop_first() + rest);
        assert forall|k: int| 0 <= k < word.drop_first().len() implies !is_white(
            #[trigger] word.drop_first()[k],
        ) by {
            assert(word.drop_first()[k] == word[k + 1]);
        }
        lemma_word_len(word.drop_first(), rest);
    } else if rest.len() > 0 {
        assert(s[0] == rest[0]);
    }
}

/// The first occurrence of a pattern gives way to what replaces it, what stands
/// before it stays, and what follows is treated in the same way.
pub proof fn law_replace_first(a: Seq<char>, p: Seq<char>, b: Seq<char>, by: Seq<char>)
    requires
        p.len() > 0,
        forall|k: int| 0 <= k < a.len() ==> !begins_with(#[trigger] (a + p + b).skip(k), p),
    ensures
        replaced(a + p + b, p, by) == a + by + replaced(b, p, by),
    decreases a.len(),
{
    let s = a + p + b;
    if a.len() == 0 {
        assert(s == p + b);
        lemma_starts(p, b);
        assert(s.skip(p.len() as int) == b);
        assert(a + by + replaced(b, p, by) == by + replaced(b, p, by));
    } else {
        assert(s.skip(0) == s);
        assert(!begins_with(s, p));
        let rest = a.drop_first();
        assert(s.drop_first() == rest + p + b);
        assert forall|k: int| 0 <= k < rest.len() implies !begins_with(
            #[trigger] (rest + p + b).skip(k),
            p,
        ) by {
            assert((rest + p + b).skip(k) == s.skip(k + 1));
        }
        law_replace_first(rest, p, b, by);
        assert(seq![s[0]] + (rest + by + replaced(b, p, by)) == a + by + replaced(b, p, by));
    }
}

/// A number is written without leading zeros, a sign is read as a sign, and a
/// bound lets through what does not exceed it.
pub proof fn law_numbers_read_as_written(n: nat, max: nat)
    ensures
        n > 0 ==> dec(n)[0] != '0',
        read_nat(seq!['+'] + dec(n)) == Some(n),
        read_int(dec_int(n as int)) == Some(n as int),
        read_int(dec_int(-(n as int))) == Some(-(n as int)),
        read_bounded(dec(n), max) == (if n <= max {
            Some(n)
        } else {
            None
        }),
{
    law_dec_reads_back(n);
    lemma_no_leading_zero(n);
    assert((seq!['+'] + dec(n)).drop_first() == dec(n));
    assert(is_digit(dec(n)[0]));
    if n > 0 {
        assert((seq!['-'] + dec(n)).drop_first() == dec(n));
    }
}

proof fn lemma_no_leading_zero(n: nat)
    ensures
        n > 0 ==> dec(n)[0] != '0',
    decreases n,
{
    if n >= 10 {
        lemma_no_leading_zero(n / 10);
        law_dec_reads_back(n / 10);
    }
}

/// A text moved to one end of a field is there whole, what else is in the field
/// is filling, and the field is no wider than it has to be.
pub proof fn law_alignment_keeps_the_text(s: Seq<char>, width: nat, fill: char)
    ensures
        finishes_with(right_aligned(s, width, fill), s),
        begins_with(left_aligned(s, width), s),
        right_aligned(s, width, fill).len() == if s.len() < width {
            width
        } else {
            s.len()
        },
        left_aligned(s, width).len() == right_aligned(s, width, fill).len(),
        forall|k: int|
            0 <= k < right_aligned(s, width, fill).len() - s.len() ==> #[trigger] right_aligned(
                s,
                width,
                fill,
            )[k] == fill,
        forall|k: int|
            s.len() <= k < left_aligned(s, width).len() ==> #[trigger] left_aligned(s, width)[k]
                == ' ',
{
    let r = right_aligned(s, width, fill);
    assert(r.skip(r.len() - s.len()) == s);
    lemma_starts(s, copies(' ', missing(s, width)));
}

/// A stretch in which the pattern begins nowhere is passed over unchanged.
pub proof fn lemma_replace_passes(x: Seq<char>, b: Seq<char>, p: Seq<char>, by: Seq<char>)
    requires
        p.len() > 0,
        forall|k: int| 0 <= k < x.len() ==> !begins_with(#[trigger] (x + b).skip(k), p),
    ensures
        replaced(x + b, p, by) == x + replaced(b, p, by),
    decreases x.len(),
{
    let s = x + b;
    if x.len() == 0 {
        assert(s == b);
        assert(x + replaced(b, p, by) == replaced(b, p, by));
    } else {
        assert(s.skip(0) == s);
        assert(!begins_with(s, p));
        let rest = x.drop_first();
        assert(s.drop_first() == rest + b);
        assert forall|k: int| 0 <= k < rest.len() implies !begins_with(
            #[trigger] (rest + b).skip(k),
            p,
        ) by {
            assert((rest + b).skip(k) == s.skip(k + 1));
        }
        lemma_replace_passes(rest, b, p, by);
        assert(seq![s[0]] + (rest + replaced(b, p, by)) == x + replaced(b, p, by));
    }
}

/// A text followed by others, one after the other.
pub open spec fn followed(s: Seq<char>, more: Seq<Seq<char>>) -> Seq<char>
    decreases more.len(),
{
    if more.len() == 0 {
        s
    } else {
        followed(s + more[0], more.drop_first())
    }
}

/// What occurs in a text occurs in it with more behind it.
pub proof fn lemma_occurs_left(p: Seq<char>, s: Seq<char>, more: Seq<char>)
    requires
        occurs_in(p, s),
    ensures
        occurs_in(p, s + more),
{
    lemma_occurs_wider(p, Seq::empty(), s, more);
    assert(Seq::<char>::empty() + s + more == s + more);
}

/// What occurs in a text occurs in it with more before it.
pub proof fn lemma_occurs_right(p: Seq<char>, more: Seq<char>, s: Seq<char>)
    requires
        occurs_in(p, s),
    ensures
        occurs_in(p, more + s),
{
    lemma_occurs_wider(p, more, s, Seq::empty());
    assert(more + s + Seq::<char>::empty() == more + s);
}

/// A text occurs in itself.
pub proof fn lemma_occurs_whole(p: Seq<char>)
    ensures
        occurs_in(p, p),
{
    lemma_occurs_between(p, Seq::empty(), Seq::empty());
    assert(Seq::<char>::empty() + p + Seq::<char>::empty() == p);
}

/// What occurs in one of the texts occurs in the whole.
pub proof fn lemma_followed_holds(p: Seq<char>, s: Seq<char>, more: Seq<Seq<char>>)
    requires
        occurs_in(p, s) || exists|k: int|
            0 <= k < more.len() && occurs_in(p, #[trigger] more[k]),
    ensures
        occurs_in(p, followed(s, more)),
    decreases more.len(),
{
    if more.len() > 0 {
        let rest = more.drop_first();
        if occurs_in(p, s) {
            lemma_occurs_left(p, s, more[0]);
        } else {
            let k = choose|k: int| 0 <= k < more.len() && occurs_in(p, #[trigger] more[k]);
            if k == 0 {
                lemma_occurs_right(p, s, more[0]);
            } else {
                assert(rest[k - 1] == more[k]);
            }
        }
        lemma_followed_holds(p, s + more[0], rest);
    }
}

/// What follows stands behind what is there.
pub proof fn lemma_followed_grows(s: Seq<char>, more: Seq<Seq<char>>) -> (tail: Seq<char>)
    ensures
        followed(s, more) == s + tail,
    decreases more.len(),
{
    if more.len() > 0 {
        let t = lemma_followed_grows(s + more[0], more.drop_first());
        assert((s + more[0]) + t == s + (more[0] + t));
        more[0] + t
    } else {
        assert(s + Seq::<char>::empty() == s);
        Seq::empty()
    }
}

/// Whether `x` occurs in `t` somewhere before `y`.
pub open spec fn in_order(x: Seq<char>, y: Seq<char>, t: Seq<char>) -> bool {
    exists|a: Seq<char>, b: Seq<char>| #[trigger]
        (a + b) == t && occurs_in(x, a) && occurs_in(y, b)
}

/// The order of two parts stays with more round them.
pub proof fn lemma_in_order_wider(
    x: Seq<char>,
    y: Seq<char>,
    before: Seq<char>,
    t: Seq<char>,
    after: Seq<char>,
)
    requires
        in_order(x, y, t),
    ensures
        in_order(x, y, before + t + after),
{
    let (a, b) = choose|a: Seq<char>, b: Seq<char>| #[trigger]
        (a + b) == t && occurs_in(x, a) && occurs_in(y, b);
    lemma_occurs_right(x, before, a);
    lemma_occurs_left(y, b, after);
    assert((before + a) + (b + after) == before + t + after);
}

/// The order of two parts of one of the texts stays in the whole.
pub proof fn lemma_followed_in_order(
    x: Seq<char>,
    y: Seq<char>,
    s: Seq<char>,
    more: Seq<Seq<char>>,
    k: int,
)
    requires
        0 <= k < more.len(),
        in_order(x, y, more[k]),
    ensures
        in_order(x, y, followed(s, more)),
    decreases more.len(),
{
    let rest = more.drop_first();
    if k == 0 {
        let tail = lemma_followed_grows(s + more[0], rest);
        lemma_in_order_wider(x, y, s, more[0], tail);
        assert(s + more[0] + tail == followed(s, more));
    } else {
        assert(rest[k - 1] == more[k]);
        lemma_followed_in_order(x, y, s + more[0], rest, k - 1);
    }
}

/// Parts stand one after the other, each as it is.
pub proof fn law_concatenation_keeps_each(a: Seq<Seq<char>>, b: Seq<Seq<char>>, x: Seq<char>)
    ensures
        concatenated(a + b) == concatenated(a) + concatenated(b),
        concatenated(seq![x]) == x,
        concatenated(Seq::empty()) == Seq::<char>::empty(),
    decreases b.len(),
{
    reveal_with_fuel(concatenated, 2);
    assert(seq![x].drop_last() == Seq::<Seq<char>>::empty());
    assert(Seq::<char>::empty() + x == x);
    if b.len() == 0 {
        assert(a + b == a);
        assert(concatenated(a) + concatenated(b) == concatenated(a));
    } else {
        assert((a + b).drop_last() == a + b.drop_last());
        assert((a + b).last() == b.last());
        law_concatenation_keeps_each(a, b.drop_last(), x);
        assert(concatenated(a) + (concatenated(b.drop_last()) + b.last()) == concatenated(a)
            + concatenated(b.drop_last()) + b.last());
    }
}

/// Blanks, tabs and line ends are white space; letters, digits and what is
/// printed between them are not.
pub proof fn law_white_space_is_what_prints_nothing(c: char)
    ensures
        is_white(' ') && is_white('\t') && is_white('\n') && is_white('\r'),
        '!' <= c <= '~' ==> !is_white(c),
        is_digit(c) || is_letter(c) ==> !is_white(c),
        is_digit(c) <==> '0' <= c <= '9',
        is_letter(c) <==> ('a' <= c <= 'z') || ('A' <= c <= 'Z'),
{
}

/// A text begins with what it can be continued from, finishes with what can be
/// put before to make it, and holds what has a part before and a part behind it.
pub proof fn law_parts_make_the_text(s: Seq<char>, p: Seq<char>)
    ensures
        begins_with(s, p) <==> exists|rest: Seq<char>| s == #[trigger] (p + rest),
        finishes_with(s, p) <==> exists|front: Seq<char>| s == #[trigger] (front + p),
        occurs_in(p, s) <==> exists|a: Seq<char>, b: Seq<char>| s == #[trigger] (a + p + b),
{
    if begins_with(s, p) {
        assert(s == p + s.skip(p.len() as int));
    }
    if exists|rest: Seq<char>| s == #[trigger] (p + rest) {
        let rest = choose|rest: Seq<char>| s == #[trigger] (p + rest);
        lemma_starts(p, rest);
    }
    if finishes_with(s, p) {
        assert(s == s.take(s.len() - p.len()) + p);
    }
    if exists|front: Seq<char>| s == #[trigger] (front + p) {
        let front = choose|front: Seq<char>| s == #[trigger] (front + p);
        assert(s.skip(s.len() - p.len()) == p);
    }
    if occurs_in(p, s) {
        let k = choose|k: int| 0 <= k <= s.len() && begins_with(#[trigger] s.skip(k), p);
        assert(s == s.take(k) + p + s.skip(k).skip(p.len() as int)) by {
            assert(s.skip(k).take(p.len() as int) == p);
            assert(s.skip(k) == p + s.skip(k).skip(p.len() as int));
            assert(s == s.take(k) + s.skip(k));
        }
    }
    if exists|a: Seq<char>, b: Seq<char>| s == #[trigger] (a + p + b) {
        let (a, b) = choose|a: Seq<char>, b: Seq<char>| s == #[trigger] (a + p + b);
        lemma_occurs_between(p, a, b);
    }
}

} // verus!
