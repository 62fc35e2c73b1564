//! Text as sequences of characters: trimming, splitting, joining, replacing and numbers.

use vstd::prelude::*;
use vstd::slice::slice_subrange;

verus! {

broadcast use vstd::seq::group_seq_axioms;

// ---------------------------------------------------------------------------------------------
// Characters

/// The characters with the Unicode property `White_Space`.
pub open spec fn is_whitespace(c: char) -> bool {
    ||| '\u{9}' <= c <= '\u{d}'
    ||| c == ' '
    ||| c == '\u{85}'
    ||| c == '\u{a0}'
    ||| c == '\u{1680}'
    ||| '\u{2000}' <= c <= '\u{200a}'
    ||| c == '\u{2028}'
    ||| c == '\u{2029}'
    ||| c == '\u{202f}'
    ||| c == '\u{205f}'
    ||| c == '\u{3000}'
}

/// Whether a character has the Unicode property `White_Space`.
pub fn whitespace(c: char) -> (r: bool)
    ensures
        r == is_whitespace(c),
{
    let n: u32 = c as u32;
    (0x9 <= n && n <= 0xd) || n == 0x20 || n == 0x85 || n == 0xa0 || n == 0x1680 || (0x2000 <= n
        && n <= 0x200a) || n == 0x2028 || n == 0x2029 || n == 0x202f || n == 0x205f || n == 0x3000
}

/// The lower-case form of an ASCII letter; any other character is its own.
pub open spec fn ascii_lower(c: char) -> char {
    if 'A' <= c <= 'Z' {
        ((c as u32 + 32) as u32) as char
    } else {
        c
    }
}

fn lower(c: char) -> (r: char)
    ensures
        r == ascii_lower(c),
{
    if 'A' <= c && c <= 'Z' {
        (c as u8 + 32) as char
    } else {
        c
    }
}

/// Two texts that differ at most in the case of ASCII letters.
pub open spec fn same_ignoring_ascii_case(a: Seq<char>, b: Seq<char>) -> bool {
    &&& a.len() == b.len()
    &&& forall|i: int| 0 <= i < a.len() ==> ascii_lower(#[trigger] a[i]) == ascii_lower(b[i])
}

// ---------------------------------------------------------------------------------------------
// Strings and character vectors

/// `String::push` appends one character.
pub assume_specification[ String::push ](string: &mut String, c: char)
    ensures
        final(string)@ == old(string)@.push(c),
;

/// The texts of a list of strings.
pub open spec fn texts(strings: Seq<String>) -> Seq<Seq<char>> {
    Seq::new(strings.len(), |i: int| strings[i]@)
}

/// A text that may be there, borrowed.
pub fn borrowed(text: &Option<String>) -> (r: Option<&str>)
    ensures
        r.deep_view() == text.deep_view(),
{
    match text {
        Some(text) => Some(text.as_str()),
        None => None,
    }
}

/// The characters of a string.
pub fn chars_of(s: &str) -> (r: Vec<char>)
    ensures
        r@ == s@,
{
    let mut out: Vec<char> = Vec::new();
    for c in it: s.chars()
        invariant
            it.seq() == s@,
            out@ == s@.take(it.index() as int),
    {
        out.push(c);
    }
    assert(s@.take(s@.len() as int) == s@);
    out
}

/// Appends characters to a string.
pub fn push_chars(out: &mut String, chars: &[char])
    ensures
        final(out)@ == old(out)@ + chars@,
{
    let ghost before = out@;
    for i in 0..chars.len()
        invariant
            out@ == before + chars@.take(i as int),
    {
        out.push(chars[i]);
        assert(chars@.take(i + 1) == chars@.take(i as int).push(chars@[i as int]));
    }
    assert(chars@.take(chars@.len() as int) == chars@);
}

/// The string with the given characters.
pub fn string_of(chars: &[char]) -> (r: String)
    ensures
        r@ == chars@,
{
    let mut out = String::new();
    push_chars(&mut out, chars);
    out
}

/// Appends characters to a vector of characters.
pub fn extend_chars(out: &mut Vec<char>, chars: &[char])
    ensures
        final(out)@ == old(out)@ + chars@,
{
    let ghost before = out@;
    for i in 0..chars.len()
        invariant
            out@ == before + chars@.take(i as int),
    {
        out.push(chars[i]);
        assert(chars@.take(i + 1) == chars@.take(i as int).push(chars@[i as int]));
    }
    assert(chars@.take(chars@.len() as int) == chars@);
}

/// Whether two character slices are equal.
pub fn same(a: &[char], b: &[char]) -> (r: bool)
    ensures
        r == (a@ == b@),
{
    if a.len() != b.len() {
        return false;
    }
    for i in 0..a.len()
        invariant
            a@.len() == b@.len(),
            forall|j: int| 0 <= j < i ==> a@[j] == b@[j],
    {
        if a[i] != b[i] {
            return false;
        }
    }
    assert(a@ =~= b@);
    true
}

/// Whether a character slice holds the given text.
pub fn equals(s: &[char], wanted: &str) -> (r: bool)
    ensures
        r == (s@ == wanted@),
{
    let wanted_chars = chars_of(wanted);
    same(s, wanted_chars.as_slice())
}

/// Whether a character slice begins with the given text.
pub fn begins_with(s: &[char], prefix: &str) -> (r: bool)
    ensures
        r == prefix@.is_prefix_of(s@),
{
    let prefix_chars = chars_of(prefix);
    starts_with(s, prefix_chars.as_slice())
}

/// Whether `text` begins with `prefix`.
pub fn starts_with(text: &[char], prefix: &[char]) -> (r: bool)
    ensures
        r == prefix@.is_prefix_of(text@),
{
    if prefix.len() > text.len() {
        return false;
    }
    let r = same(slice_subrange(text, 0, prefix.len()), prefix);
    assert(prefix@.is_prefix_of(text@) == (text@.subrange(0, prefix@.len() as int) == prefix@));
    r
}

/// Whether two character slices differ at most in the case of ASCII letters.
pub fn eq_ignore_ascii_case(a: &[char], b: &[char]) -> (r: bool)
    ensures
        r == same_ignoring_ascii_case(a@, b@),
{
    if a.len() != b.len() {
        return false;
    }
    for i in 0..a.len()
        invariant
            a@.len() == b@.len(),
            forall|j: int| 0 <= j < i ==> ascii_lower(#[trigger] a@[j]) == ascii_lower(b@[j]),
    {
        if lower(a[i]) != lower(b[i]) {
            return false;
        }
    }
    true
}

// ---------------------------------------------------------------------------------------------
// Trimming

/// How many characters of white space a text begins with.
pub open spec fn blank_len(s: Seq<char>) -> nat
    decreases s.len(),
{
    if s.len() > 0 && is_whitespace(s[0]) {
        1 + blank_len(s.drop_first())
    } else {
        0
    }
}

/// A text without the white space at its start.
pub open spec fn trim_start(s: Seq<char>) -> Seq<char> {
    s.skip(blank_len(s) as int)
}

/// A text without the white space at its end.
pub open spec fn trim_end(s: Seq<char>) -> Seq<char>
    decreases s.len(),
{
    if s.len() > 0 && is_whitespace(s.last()) {
        trim_end(s.drop_last())
    } else {
        s
    }
}

/// A text without the white space around it.
pub open spec fn trim(s: Seq<char>) -> Seq<char> {
    trim_end(trim_start(s))
}

/// What remains when white space is removed from the end is a beginning of the text.
pub proof fn lemma_trim_end_is_prefix(s: Seq<char>)
    ensures
        trim_end(s).is_prefix_of(s),
    decreases s.len(),
{
    if s.len() > 0 && is_whitespace(s.last()) {
        lemma_trim_end_is_prefix(s.drop_last());
    }
}

pub proof fn lemma_blank_len(s: Seq<char>)
    ensures
        blank_len(s) <= s.len(),
        forall|i: int| 0 <= i < blank_len(s) ==> is_whitespace(#[trigger] s[i]),
        blank_len(s) < s.len() ==> !is_whitespace(s[blank_len(s) as int]),
    decreases s.len(),
{
    if s.len() > 0 && is_whitespace(s[0]) {
        lemma_blank_len(s.drop_first());
        assert forall|i: int| 0 <= i < blank_len(s) implies is_whitespace(#[trigger] s[i]) by {
            if i > 0 {
                assert(s.drop_first()[i - 1] == s[i]);
            }
        }
    }
}

proof fn lemma_blank_len_unique(s: Seq<char>, n: int)
    requires
        0 <= n <= s.len(),
        forall|i: int| 0 <= i < n ==> is_whitespace(#[trigger] s[i]),
        n < s.len() ==> !is_whitespace(s[n]),
    ensures
        blank_len(s) == n,
{
    lemma_blank_len(s);
    if blank_len(s) < n {
        assert(is_whitespace(s[blank_len(s) as int]));
    } else if n < blank_len(s) {
        assert(is_whitespace(s[n]));
    }
}

/// What is trimmed off is white space, and what is left neither begins nor ends in it.
pub proof fn lemma_trim_part(s: Seq<char>)
    ensures
        exists|m: int, n: int|
            0 <= m <= n <= s.len() && trim(s) == #[trigger] s.subrange(m, n) && (forall|i: int|
                (0 <= i < m || n <= i < s.len()) ==> is_whitespace(#[trigger] s[i])),
        trim(s).len() > 0 ==> !is_whitespace(trim(s)[0]) && !is_whitespace(trim(s).last()),
        forall|c: char| trim(s).contains(c) ==> #[trigger] s.contains(c),
{
    lemma_blank_len(s);
    let m = blank_len(s) as int;
    let t = s.skip(m);
    lemma_trim_end_part(t);
    let n = m + trim_end(t).len();
    assert(trim(s) == s.subrange(m, n)) by {
        assert(trim_end(t) == t.take(trim_end(t).len() as int));
    }
    assert forall|i: int| (0 <= i < m || n <= i < s.len()) implies is_whitespace(
        #[trigger] s[i],
    ) by {
        if i >= n {
            assert(t[i - m] == s[i]);
        }
    }
    if trim(s).len() > 0 {
        assert(trim(s)[0] == s[m]);
    }
    assert forall|c: char| trim(s).contains(c) implies #[trigger] s.contains(c) by {
        let i = choose|i: int| 0 <= i < trim(s).len() && trim(s)[i] == c;
        assert(s[m + i] == c);
    }
}

/// What is trimmed off the end is white space, and what is left does not end in it.
pub proof fn lemma_trim_end_part(s: Seq<char>)
    ensures
        trim_end(s) == s.take(trim_end(s).len() as int),
        trim_end(s).len() <= s.len(),
        forall|i: int| trim_end(s).len() <= i < s.len() ==> is_whitespace(#[trigger] s[i]),
        trim_end(s).len() > 0 ==> !is_whitespace(trim_end(s).last()),
    decreases s.len(),
{
    if s.len() > 0 && is_whitespace(s.last()) {
        let front = s.drop_last();
        lemma_trim_end_part(front);
        let n = trim_end(s).len() as int;
        assert(front.take(n) == s.take(n));
        assert forall|i: int| n <= i < s.len() implies is_whitespace(#[trigger] s[i]) by {
            if i < front.len() {
                assert(front[i] == s[i]);
            }
        }
    } else {
        assert(s.take(s.len() as int) == s);
    }
}

/// A text that neither begins nor ends in white space stays as it is when it is trimmed.
pub proof fn lemma_trim_of_tight(s: Seq<char>)
    requires
        s.len() > 0 ==> !is_whitespace(s[0]) && !is_whitespace(s.last()),
    ensures
        trim(s) == s,
{
    lemma_blank_len_unique(s, 0);
    assert(s.skip(0) == s);
}

/// White space around a text does not matter when it is trimmed.
pub proof fn lemma_trim_around(before: Seq<char>, s: Seq<char>, after: Seq<char>)
    requires
        forall|i: int| 0 <= i < before.len() ==> is_whitespace(#[trigger] before[i]),
        forall|i: int| 0 <= i < after.len() ==> is_whitespace(#[trigger] after[i]),
    ensures
        trim(before + s + after) == trim(s),
{
    let all = before + s + after;
    lemma_blank_len(s);
    let n = blank_len(s) as int;
    let m = before.len() + n;
    if n < s.len() {
        assert forall|i: int| 0 <= i < m implies is_whitespace(#[trigger] all[i]) by {
            if i < before.len() {
                assert(all[i] == before[i]);
            } else {
                assert(all[i] == s[i - before.len()]);
            }
        }
        assert(all[m] == s[n]);
        lemma_blank_len_unique(all, m);
        assert(all.skip(m) == s.skip(n) + after);
        lemma_trim_end_after(s.skip(n), after);
    } else {
        assert forall|i: int| 0 <= i < all.len() implies is_whitespace(#[trigger] all[i]) by {
            if i < before.len() {
                assert(all[i] == before[i]);
            } else if i < m {
                assert(all[i] == s[i - before.len()]);
            } else {
                assert(all[i] == after[i - m]);
            }
        }
        lemma_blank_len_unique(all, all.len() as int);
        assert(all.skip(all.len() as int) == s.skip(n));
    }
}

proof fn lemma_trim_end_after(s: Seq<char>, after: Seq<char>)
    requires
        forall|i: int| 0 <= i < after.len() ==> is_whitespace(#[trigger] after[i]),
    ensures
        trim_end(s + after) == trim_end(s),
    decreases after.len(),
{
    if after.len() == 0 {
        assert(s + after == s);
    } else {
        assert((s + after).last() == after.last());
        assert((s + after).drop_last() == s + after.drop_last());
        lemma_trim_end_after(s, after.drop_last());
    }
}

/// Texts that differ only in case differ only in case when they are trimmed.
pub proof fn lemma_trim_ignores_case(a: Seq<char>, b: Seq<char>)
    requires
        same_ignoring_ascii_case(a, b),
    ensures
        same_ignoring_ascii_case(trim(a), trim(b)),
        same_ignoring_ascii_case(trim(b), trim(a)),
{
    lemma_blank_len(a);
    let n = blank_len(a) as int;
    assert forall|i: int| 0 <= i < n implies is_whitespace(#[trigger] b[i]) by {
        assert(is_whitespace(a[i]));
        assert(ascii_lower(a[i]) == ascii_lower(b[i]));
    }
    if n < a.len() {
        assert(ascii_lower(a[n]) == ascii_lower(b[n]));
    }
    lemma_blank_len_unique(b, n);
    assert forall|i: int| 0 <= i < a.skip(n).len() implies ascii_lower(#[trigger] a.skip(n)[i])
        == ascii_lower(b.skip(n)[i]) by {
        assert(ascii_lower(a[n + i]) == ascii_lower(b[n + i]));
    }
    lemma_trim_end_ignores_case(a.skip(n), b.skip(n));
}

proof fn lemma_trim_end_ignores_case(a: Seq<char>, b: Seq<char>)
    requires
        same_ignoring_ascii_case(a, b),
    ensures
        same_ignoring_ascii_case(trim_end(a), trim_end(b)),
        same_ignoring_ascii_case(trim_end(b), trim_end(a)),
    decreases a.len(),
{
    if a.len() > 0 {
        let last = a.len() - 1;
        assert(ascii_lower(a[last]) == ascii_lower(b[last]));
        if is_whitespace(a.last()) {
            assert forall|i: int| 0 <= i < last implies ascii_lower(#[trigger] a.drop_last()[i])
                == ascii_lower(b.drop_last()[i]) by {
                assert(ascii_lower(a[i]) == ascii_lower(b[i]));
            }
            lemma_trim_end_ignores_case(a.drop_last(), b.drop_last());
        } else {
            lemma_same_is_symmetric(a, b);
        }
    }
}

proof fn lemma_same_is_symmetric(a: Seq<char>, b: Seq<char>)
    requires
        same_ignoring_ascii_case(a, b),
    ensures
        same_ignoring_ascii_case(b, a),
{
    assert forall|i: int| 0 <= i < b.len() implies ascii_lower(#[trigger] b[i]) == ascii_lower(
        a[i],
    ) by {
        assert(ascii_lower(a[i]) == ascii_lower(b[i]));
    }
}

/// What differs from a text only in case differs from a third only in case if the text does.
pub proof fn lemma_same_is_transitive(a: Seq<char>, b: Seq<char>, c: Seq<char>)
    requires
        same_ignoring_ascii_case(a, b),
    ensures
        same_ignoring_ascii_case(b, c) ==> same_ignoring_ascii_case(a, c),
{
    if same_ignoring_ascii_case(b, c) {
        assert forall|i: int| 0 <= i < a.len() implies ascii_lower(#[trigger] a[i])
            == ascii_lower(c[i]) by {
            assert(ascii_lower(b[i]) == ascii_lower(c[i]));
        }
    }
}

fn blank_prefix(s: &[char]) -> (n: usize)
    ensures
        n == blank_len(s@),
        n <= s@.len(),
{
    let mut n: usize = 0;
    while n < s.len() && whitespace(s[n])
        invariant
            n <= s@.len(),
            forall|i: int| 0 <= i < n ==> is_whitespace(#[trigger] s@[i]),
        decreases s@.len() - n,
    {
        n = n + 1;
    }
    proof {
        lemma_blank_len_unique(s@, n as int);
    }
    n
}

/// A text without the white space at its end.
pub fn trimmed_end(s: &[char]) -> (r: &[char])
    ensures
        r@ == trim_end(s@),
{
    let mut n: usize = s.len();
    assert(s@.take(n as int) == s@);
    while n > 0 && whitespace(s[n - 1])
        invariant
            n <= s@.len(),
            trim_end(s@) == trim_end(s@.take(n as int)),
        decreases n,
    {
        assert(s@.take(n as int).drop_last() == s@.take(n - 1));
        n = n - 1;
    }
    slice_subrange(s, 0, n)
}

/// A text without the white space around it.
pub fn trimmed(s: &[char]) -> (r: &[char])
    ensures
        r@ == trim(s@),
{
    let n: usize = blank_prefix(s);
    trimmed_end(slice_subrange(s, n, s.len()))
}

// ---------------------------------------------------------------------------------------------
// Splitting

/// Where a character first occurs in a text; its length where it does not occur.
pub open spec fn position(s: Seq<char>, c: char) -> nat
    decreases s.len(),
{
    if s.len() == 0 || s[0] == c {
        0
    } else {
        1 + position(s.drop_first(), c)
    }
}

pub proof fn lemma_position(s: Seq<char>, c: char)
    ensures
        position(s, c) <= s.len(),
        forall|i: int| 0 <= i < position(s, c) ==> #[trigger] s[i] != c,
        position(s, c) < s.len() ==> s[position(s, c) as int] == c,
    decreases s.len(),
{
    if s.len() > 0 && s[0] != c {
        lemma_position(s.drop_first(), c);
        assert forall|i: int| 0 <= i < position(s, c) implies #[trigger] s[i] != c by {
            if i > 0 {
                assert(s.drop_first()[i - 1] == s[i]);
            }
        }
    }
}

pub proof fn lemma_position_unique(s: Seq<char>, c: char, n: int)
    requires
        0 <= n <= s.len(),
        forall|i: int| 0 <= i < n ==> #[trigger] s[i] != c,
        n < s.len() ==> s[n] == c,
    ensures
        position(s, c) == n,
{
    lemma_position(s, c);
    if position(s, c) < n {
        assert(s[position(s, c) as int] != c);
    } else if n < position(s, c) {
        assert(s[n] != c);
    }
}

/// Where a character first occurs in a text; its length where it does not occur.
pub fn find(s: &[char], c: char) -> (n: usize)
    ensures
        n == position(s@, c),
        n <= s@.len(),
{
    let mut n: usize = 0;
    while n < s.len() && s[n] != c
        invariant
            n <= s@.len(),
            forall|i: int| 0 <= i < n ==> #[trigger] s@[i] != c,
        decreases s@.len() - n,
    {
        n = n + 1;
    }
    proof {
        lemma_position_unique(s@, c, n as int);
    }
    n
}

/// A text without a carriage return at its end.
pub open spec fn without_cr(s: Seq<char>) -> Seq<char> {
    if s.len() > 0 && s.last() == '\r' {
        s.drop_last()
    } else {
        s
    }
}

/// The lines of a text. A line ends in `\n` or `\r\n`; the end of the last one is optional.
pub open spec fn lines(s: Seq<char>) -> Seq<Seq<char>>
    decreases s.len(),
{
    if s.len() == 0 {
        Seq::empty()
    } else if position(s, '\n') >= s.len() {
        seq![s]
    } else {
        seq![without_cr(s.take(position(s, '\n') as int))] + lines(
            s.skip(position(s, '\n') as int + 1),
        )
    }
}

/// What the slices of a vector hold.
pub open spec fn contents(parts: Seq<&[char]>) -> Seq<Seq<char>> {
    Seq::new(parts.len(), |i: int| parts[i]@)
}

/// The lines of a text.
pub fn split_lines<'a>(text: &'a [char]) -> (r: Vec<&'a [char]>)
    ensures
        contents(r@) == lines(text@),
{
    let mut out: Vec<&'a [char]> = Vec::new();
    let mut start: usize = 0;
    assert(text@.skip(0) == text@);
    assert(contents(out@) + lines(text@) == lines(text@));
    while start < text.len()
        invariant
            start <= text@.len(),
            contents(out@) + lines(text@.skip(start as int)) == lines(text@),
        decreases text@.len() - start,
    {
        let rest = slice_subrange(text, start, text.len());
        assert(rest@ == text@.skip(start as int));
        let n: usize = find(rest, '\n');
        let ghost before = contents(out@);
        if n >= rest.len() {
            out.push(rest);
            assert(contents(out@) == before.push(rest@));
            assert(lines(text@) == before + seq![rest@]);
            start = text.len();
            assert(text@.skip(start as int) == Seq::<char>::empty());
            assert(contents(out@) + lines(text@.skip(start as int)) == lines(text@));
        } else {
            let line = if n > 0 && rest[n - 1] == '\r' {
                slice_subrange(rest, 0, n - 1)
            } else {
                slice_subrange(rest, 0, n)
            };
            assert(line@ == without_cr(rest@.take(n as int)));
            out.push(line);
            assert(contents(out@) == before.push(line@));
            assert(rest@.skip(n + 1) == text@.skip(start + n + 1));
            start = start + n + 1;
            assert(before + (seq![line@] + lines(text@.skip(start as int))) == contents(out@)
                + lines(text@.skip(start as int)));
        }
    }
    assert(text@.skip(start as int) == Seq::<char>::empty());
    assert(contents(out@) + lines(text@.skip(start as int)) == contents(out@));
    out
}

/// A text that ends in a line end is split apart from what follows it.
pub proof fn lemma_lines_concat(a: Seq<char>, b: Seq<char>)
    requires
        a.len() > 0 ==> a.last() == '\n',
    ensures
        lines(a + b) == lines(a) + lines(b),
    decreases a.len(),
{
    if a.len() == 0 {
        assert(a + b == b);
        assert(lines(a) + lines(b) == lines(b));
    } else {
        lemma_position(a, '\n');
        let n = position(a, '\n') as int;
        assert(n < a.len()) by {
            if n == a.len() {
                assert(a[a.len() - 1] != '\n');
            }
        }
        assert forall|i: int| 0 <= i < n implies #[trigger] (a + b)[i] != '\n' by {
            assert((a + b)[i] == a[i]);
        }
        lemma_position_unique(a + b, '\n', n);
        assert((a + b).take(n) == a.take(n));
        assert((a + b).skip(n + 1) == a.skip(n + 1) + b);
        lemma_lines_concat(a.skip(n + 1), b);
        let line = without_cr(a.take(n));
        assert(seq![line] + (lines(a.skip(n + 1)) + lines(b)) == (seq![line] + lines(
            a.skip(n + 1),
        )) + lines(b));
    }
}

/// How many characters other than white space a text begins with.
pub open spec fn word_len(s: Seq<char>) -> nat
    decreases s.len(),
{
    if s.len() > 0 && !is_whitespace(s[0]) {
        1 + word_len(s.drop_first())
    } else {
        0
    }
}

pub proof fn lemma_word_len(s: Seq<char>)
    ensures
        word_len(s) <= s.len(),
        forall|i: int| 0 <= i < word_len(s) ==> !is_whitespace(#[trigger] s[i]),
        word_len(s) < s.len() ==> is_whitespace(s[word_len(s) as int]),
    decreases s.len(),
{
    if s.len() > 0 && !is_whitespace(s[0]) {
        lemma_word_len(s.drop_first());
        assert forall|i: int| 0 <= i < word_len(s) implies !is_whitespace(#[trigger] s[i]) by {
            if i > 0 {
                assert(s.drop_first()[i - 1] == s[i]);
            }
        }
    }
}

proof fn lemma_word_len_unique(s: Seq<char>, n: int)
    requires
        0 <= n <= s.len(),
        forall|i: int| 0 <= i < n ==> !is_whitespace(#[trigger] s[i]),
        n < s.len() ==> is_whitespace(s[n]),
    ensures
        word_len(s) == n,
{
    lemma_word_len(s);
    if word_len(s) < n {
        assert(!is_whitespace(s[word_len(s) as int]));
    } else if n < word_len(s) {
        assert(!is_whitespace(s[n]));
    }
}

fn word_prefix(s: &[char]) -> (n: usize)
    ensures
        n == word_len(s@),
        n <= s@.len(),
{
    let mut n: usize = 0;
    while n < s.len() && !whitespace(s[n])
        invariant
            n <= s@.len(),
            forall|i: int| 0 <= i < n ==> !is_whitespace(#[trigger] s@[i]),
        decreases s@.len() - n,
    {
        n = n + 1;
    }
    proof {
        lemma_word_len_unique(s@, n as int);
    }
    n
}

/// The words of a text: its longest pieces without white space, in order.
pub open spec fn words(s: Seq<char>) -> Seq<Seq<char>>
    decreases s.len(),
    via words_decreases
{
    let t = trim_start(s);
    if t.len() == 0 {
        Seq::empty()
    } else {
        seq![t.take(word_len(t) as int)] + words(t.skip(word_len(t) as int))
    }
}

#[via_fn]
proof fn words_decreases(s: Seq<char>) {
    lemma_blank_len(s);
    let t = trim_start(s);
    lemma_word_len(t);
    if t.len() > 0 {
        assert(t[0] == s[blank_len(s) as int]);
    }
}

/// The words of a text.
pub fn split_words<'a>(text: &'a [char]) -> (r: Vec<&'a [char]>)
    ensures
        contents(r@) == words(text@),
{
    let mut out: Vec<&'a [char]> = Vec::new();
    let mut start: usize = 0;
    assert(text@.skip(0) == text@);
    assert(contents(out@) + words(text@) == words(text@));
    loop
        invariant
            start <= text@.len(),
            contents(out@) + words(text@.skip(start as int)) == words(text@),
        decreases text@.len() - start,
    {
        let rest = slice_subrange(text, start, text.len());
        assert(rest@ == text@.skip(start as int));
        let blank: usize = blank_prefix(rest);
        let word_on = slice_subrange(rest, blank, rest.len());
        assert(word_on@ == trim_start(rest@));
        if word_on.len() == 0 {
            assert(contents(out@) + words(rest@) == contents(out@));
            return out;
        }
        let n: usize = word_prefix(word_on);
        proof {
            lemma_blank_len(rest@);
            lemma_word_len(word_on@);
            assert(word_on@[0] == rest@[blank as int]);
        }
        let ghost before = contents(out@);
        let word = slice_subrange(word_on, 0, n);
        out.push(word);
        assert(contents(out@) == before.push(word@));
        assert(word_on@.skip(n as int) == text@.skip(start + blank + n));
        start = start + blank + n;
        assert(before + (seq![word@] + words(text@.skip(start as int))) == contents(out@) + words(
            text@.skip(start as int),
        ));
    }
}

/// Every word holds at least one character, and no white space.
pub proof fn lemma_words(s: Seq<char>)
    ensures
        forall|i: int| 0 <= i < words(s).len() ==> (#[trigger] words(s)[i]).len() > 0,
        forall|i: int, j: int|
            0 <= i < words(s).len() && 0 <= j < words(s)[i].len() ==> !is_whitespace(
                #[trigger] words(s)[i][j],
            ),
    decreases s.len(),
{
    let t = trim_start(s);
    if t.len() > 0 {
        lemma_blank_len(s);
        lemma_word_len(t);
        assert(t[0] == s[blank_len(s) as int]);
        let rest = t.skip(word_len(t) as int);
        lemma_words(rest);
        assert(words(s) == seq![t.take(word_len(t) as int)] + words(rest));
        assert forall|i: int| 0 <= i < words(s).len() implies (#[trigger] words(s)[i]).len()
            > 0 by {
            if i > 0 {
                assert(words(s)[i] == words(rest)[i - 1]);
            }
        }
        assert forall|i: int, j: int|
            0 <= i < words(s).len() && 0 <= j < words(s)[i].len() implies !is_whitespace(
            #[trigger] words(s)[i][j],
        ) by {
            if i > 0 {
                assert(words(s)[i] == words(rest)[i - 1]);
            } else {
                assert(words(s)[0][j] == t[j]);
            }
        }
    }
}

/// White space between two texts keeps their words apart.
pub proof fn lemma_words_around_blank(a: Seq<char>, blank: char, b: Seq<char>)
    requires
        is_whitespace(blank),
    ensures
        words(a + seq![blank] + b) == words(a) + words(b),
    decreases a.len(),
{
    let all = a + seq![blank] + b;
    let t = trim_start(a);
    let n = blank_len(a) as int;
    lemma_blank_len(a);
    if t.len() == 0 {
        lemma_blank_len(b);
        let m = (a.len() + 1 + blank_len(b)) as int;
        assert forall|i: int| 0 <= i < m implies is_whitespace(#[trigger] all[i]) by {
            if i < a.len() {
                assert(all[i] == a[i]);
            } else if i > a.len() {
                assert(all[i] == b[i - a.len() - 1]);
            }
        }
        if m < all.len() {
            assert(all[m] == b[blank_len(b) as int]);
        }
        lemma_blank_len_unique(all, m);
        assert(trim_start(all) == trim_start(b));
        assert(words(all) == words(b));
        assert(words(a) + words(b) == words(b));
    } else {
        assert forall|i: int| 0 <= i < n implies is_whitespace(#[trigger] all[i]) by {
            assert(all[i] == a[i]);
        }
        assert(all[n] == a[n]);
        lemma_blank_len_unique(all, n);
        let whole = t + seq![blank] + b;
        assert(trim_start(all) == whole);
        lemma_word_len(t);
        let k = word_len(t) as int;
        assert forall|i: int| 0 <= i < k implies !is_whitespace(#[trigger] whole[i]) by {
            assert(whole[i] == t[i]);
        }
        if k < t.len() {
            assert(whole[k] == t[k]);
        }
        lemma_word_len_unique(whole, k);
        assert(whole.take(k) == t.take(k));
        assert(whole.skip(k) == t.skip(k) + seq![blank] + b);
        assert(t[0] == a[n]);
        lemma_words_around_blank(t.skip(k), blank, b);
        assert(seq![t.take(k)] + (words(t.skip(k)) + words(b)) == (seq![t.take(k)] + words(
            t.skip(k),
        )) + words(b));
    }
}

/// A carriage return at the end of a text belongs to no word.
pub proof fn lemma_words_without_cr(s: Seq<char>)
    ensures
        words(without_cr(s)) == words(s),
{
    if s.len() > 0 && s.last() == '\r' {
        let none = Seq::<char>::empty();
        lemma_words_around_blank(s.drop_last(), '\r', none);
        assert(s == s.drop_last() + seq!['\r'] + none);
        assert(words(none) == Seq::<Seq<char>>::empty());
    }
}

/// A text of characters other than white space is one word.
proof fn lemma_one_word(s: Seq<char>)
    requires
        s.len() > 0,
        forall|i: int| 0 <= i < s.len() ==> !is_whitespace(#[trigger] s[i]),
    ensures
        words(s) == seq![s],
{
    lemma_blank_len_unique(s, 0);
    assert(trim_start(s) == s);
    lemma_word_len_unique(s, s.len() as int);
    assert(s.take(s.len() as int) == s);
    let none = s.skip(s.len() as int);
    assert(none.len() == 0);
    assert(words(none) == Seq::<Seq<char>>::empty());
}

/// Words with white space between them are the words of the whole.
pub proof fn lemma_words_of_join(parts: Seq<Seq<char>>, blank: char)
    requires
        is_whitespace(blank),
        forall|i: int| 0 <= i < parts.len() ==> (#[trigger] parts[i]).len() > 0,
        forall|i: int, j: int|
            0 <= i < parts.len() && 0 <= j < parts[i].len() ==> !is_whitespace(
                #[trigger] parts[i][j],
            ),
    ensures
        words(join(parts, seq![blank])) == parts,
    decreases parts.len(),
{
    if parts.len() == 1 {
        lemma_one_word(parts[0]);
        assert(parts == seq![parts[0]]);
    } else if parts.len() > 1 {
        let front = parts.drop_last();
        lemma_words_of_join(front, blank);
        lemma_words_around_blank(join(front, seq![blank]), blank, parts.last());
        lemma_one_word(parts.last());
        assert(parts == front + seq![parts.last()]);
    } else {
        assert(words(Seq::<char>::empty()) == Seq::<Seq<char>>::empty());
        assert(parts == Seq::<Seq<char>>::empty());
    }
}

/// The words of each of a list of lines, one after the other.
pub open spec fn words_of_lines(lines: Seq<Seq<char>>) -> Seq<Seq<char>>
    decreases lines.len(),
{
    if lines.len() == 0 {
        Seq::empty()
    } else {
        words_of_lines(lines.drop_last()) + words(lines.last())
    }
}

proof fn lemma_words_of_first_line(line: Seq<char>, rest: Seq<Seq<char>>)
    ensures
        words_of_lines(seq![line] + rest) == words(line) + words_of_lines(rest),
    decreases rest.len(),
{
    let all = seq![line] + rest;
    if rest.len() == 0 {
        assert(all.drop_last() == rest);
        assert(words_of_lines(rest) + words(line) == words(line) + words_of_lines(rest));
    } else {
        lemma_words_of_first_line(line, rest.drop_last());
        assert(all.drop_last() == seq![line] + rest.drop_last());
        assert((words(line) + words_of_lines(rest.drop_last())) + words(rest.last()) == words(line)
            + (words_of_lines(rest.drop_last()) + words(rest.last())));
    }
}

/// The words of a text are the words of its lines.
pub proof fn lemma_words_of_lines(s: Seq<char>)
    ensures
        words_of_lines(lines(s)) == words(s),
    decreases s.len(),
{
    lemma_position(s, '\n');
    let n = position(s, '\n') as int;
    if s.len() == 0 {
        assert(words(s) == Seq::<Seq<char>>::empty());
    } else if n >= s.len() {
        lemma_words_of_first_line(s, Seq::empty());
        assert(seq![s] + Seq::<Seq<char>>::empty() == lines(s));
        assert(words(s) + words_of_lines(Seq::<Seq<char>>::empty()) == words(s));
    } else {
        let line = s.take(n);
        let rest = s.skip(n + 1);
        lemma_words_of_lines(rest);
        lemma_words_of_first_line(without_cr(line), lines(rest));
        lemma_words_without_cr(line);
        lemma_words_around_blank(line, '\n', rest);
        assert(s == line + seq!['\n'] + rest);
    }
}

// ---------------------------------------------------------------------------------------------
// Joining and replacing

/// Texts one after the other, with a separator between each two.
pub open spec fn join(parts: Seq<Seq<char>>, separator: Seq<char>) -> Seq<char>
    decreases parts.len(),
{
    if parts.len() == 0 {
        Seq::empty()
    } else if parts.len() == 1 {
        parts[0]
    } else {
        join(parts.drop_last(), separator) + separator + parts.last()
    }
}

/// Texts one after the other, with a separator between each two.
pub fn joined(parts: &Vec<&[char]>, separator: &[char]) -> (r: Vec<char>)
    ensures
        r@ == join(contents(parts@), separator@),
{
    let mut out: Vec<char> = Vec::new();
    for i in 0..parts.len()
        invariant
            out@ == join(contents(parts@).take(i as int), separator@),
    {
        if i > 0 {
            extend_chars(&mut out, separator);
        }
        extend_chars(&mut out, parts[i]);
        assert(contents(parts@).take(i + 1).drop_last() == contents(parts@).take(i as int));
    }
    assert(contents(parts@).take(parts@.len() as int) == contents(parts@));
    out
}

/// A text in which every occurrence of `from`, searched from the left, has become `to`.
pub open spec fn replaced(s: Seq<char>, from: Seq<char>, to: Seq<char>) -> Seq<char>
    recommends
        from.len() > 0,
    decreases s.len(),
{
    if s.len() == 0 {
        Seq::empty()
    } else if from.len() > 0 && from.is_prefix_of(s) {
        to + replaced(s.skip(from.len() as int), from, to)
    } else {
        seq![s[0]] + replaced(s.skip(1), from, to)
    }
}

/// A text in which every occurrence of `from`, searched from the left, has become `to`.
pub fn replace(text: &[char], from: &str, to: &str) -> (r: Vec<char>)
    requires
        from@.len() > 0,
    ensures
        r@ == replaced(text@, from@, to@),
{
    let from_chars = chars_of(from);
    let to_chars = chars_of(to);
    let mut out: Vec<char> = Vec::new();
    let mut i: usize = 0;
    assert(text@.skip(0) == text@);
    while i < text.len()
        invariant
            i <= text@.len(),
            from_chars@ == from@,
            to_chars@ == to@,
            from@.len() > 0,
            out@ + replaced(text@.skip(i as int), from@, to@) == replaced(text@, from@, to@),
        decreases text@.len() - i,
    {
        let ghost before = out@;
        let rest = slice_subrange(text, i, text.len());
        assert(rest@ == text@.skip(i as int));
        if starts_with(rest, from_chars.as_slice()) {
            extend_chars(&mut out, to_chars.as_slice());
            assert(rest@.skip(from@.len() as int) == text@.skip(i + from@.len()));
            i = i + from_chars.len();
        } else {
            out.push(text[i]);
            assert(rest@.skip(1) == text@.skip(i + 1));
            i = i + 1;
            assert(before + (seq![rest@[0]] + replaced(text@.skip(i as int), from@, to@)) == out@
                + replaced(text@.skip(i as int), from@, to@));
        }
    }
    assert(text@.skip(i as int) == Seq::<char>::empty());
    out
}

/// What is replaced does not reach over a character that it does not hold.
pub proof fn lemma_replaced_around(
    a: Seq<char>,
    c: char,
    b: Seq<char>,
    from: Seq<char>,
    to: Seq<char>,
)
    requires
        from.len() > 0,
        !from.contains(c),
    ensures
        replaced(a + seq![c] + b, from, to) == replaced(a, from, to) + seq![c] + replaced(
            b,
            from,
            to,
        ),
    decreases a.len(),
{
    let all = a + seq![c] + b;
    let after = seq![c] + replaced(b, from, to);
    if from.is_prefix_of(all) {
        assert forall|i: int| 0 <= i < from.len() implies #[trigger] from[i] == all[i] by {
            assert(all.subrange(0, from.len() as int)[i] == all[i]);
        }
        assert(from.len() <= a.len()) by {
            if from.len() > a.len() {
                assert(from[a.len() as int] == all[a.len() as int]);
            }
        }
        assert(a.subrange(0, from.len() as int) == from);
        assert(from.is_prefix_of(a));
        let rest = a.skip(from.len() as int);
        assert(all.skip(from.len() as int) == rest + seq![c] + b);
        lemma_replaced_around(rest, c, b, from, to);
        assert(to + (replaced(rest, from, to) + seq![c] + replaced(b, from, to)) == (to + replaced(
            rest,
            from,
            to,
        )) + seq![c] + replaced(b, from, to));
    } else if a.len() == 0 {
        assert(all.skip(1) == b);
        assert(all[0] == c);
        assert(replaced(a, from, to) + seq![c] + replaced(b, from, to) == after);
    } else {
        assert(!from.is_prefix_of(a)) by {
            if from.is_prefix_of(a) {
                assert(all.subrange(0, from.len() as int) == a.subrange(0, from.len() as int));
            }
        }
        let rest = a.skip(1);
        assert(all.skip(1) == rest + seq![c] + b);
        lemma_replaced_around(rest, c, b, from, to);
        assert(seq![a[0]] + (replaced(rest, from, to) + seq![c] + replaced(b, from, to)) == (
        seq![a[0]] + replaced(rest, from, to)) + seq![c] + replaced(b, from, to));
    }
}

/// A text without the first character of what is replaced stays as it is.
pub proof fn lemma_replaced_absent(s: Seq<char>, from: Seq<char>, to: Seq<char>)
    requires
        from.len() > 0,
        !s.contains(from[0]),
    ensures
        replaced(s, from, to) == s,
    decreases s.len(),
{
    if s.len() > 0 {
        if from.is_prefix_of(s) {
            assert(s.subrange(0, from.len() as int)[0] == s[0]);
        }
        assert(!s.skip(1).contains(from[0])) by {
            assert forall|i: int| 0 <= i < s.skip(1).len() implies s.skip(1)[i] != from[0] by {
                assert(s.skip(1)[i] == s[i + 1]);
            }
        }
        lemma_replaced_absent(s.skip(1), from, to);
        assert(seq![s[0]] + s.skip(1) == s);
    }
}

// ---------------------------------------------------------------------------------------------
// Numbers

/// A decimal digit.
pub open spec fn digit(n: nat) -> char
    recommends
        n < 10,
{
    ((48 + n) as u32) as char
}

/// A number in decimal.
pub open spec fn decimal(n: nat) -> Seq<char>
    decreases n,
{
    if n < 10 {
        seq![digit(n)]
    } else {
        decimal(n / 10).push(digit(n % 10))
    }
}

/// An integer in decimal, with a minus sign before a negative one.
pub open spec fn signed_decimal(n: int) -> Seq<char> {
    if n < 0 {
        seq!['-'] + decimal((-n) as nat)
    } else {
        decimal(n as nat)
    }
}

/// A text of decimal digits.
pub open spec fn is_digits(s: Seq<char>) -> bool {
    forall|i: int| 0 <= i < s.len() ==> '0' <= #[trigger] s[i] <= '9'
}

/// The number that decimal digits stand for.
pub open spec fn digits_value(s: Seq<char>) -> nat
    decreases s.len(),
{
    if s.len() == 0 {
        0
    } else {
        digits_value(s.drop_last()) * 10 + (s.last() as nat - '0' as nat) as nat
    }
}

proof fn lemma_digits_value_grows(s: Seq<char>, n: int)
    requires
        0 <= n <= s.len(),
    ensures
        digits_value(s.take(n)) <= digits_value(s),
    decreases s.len(),
{
    if n == s.len() {
        assert(s.take(n) == s);
    } else {
        lemma_digits_value_grows(s.drop_last(), n);
        assert(s.drop_last().take(n) == s.take(n));
    }
}

/// What is left of a number when one plus sign before it is removed.
pub open spec fn without_plus(s: Seq<char>) -> Seq<char> {
    if s.len() > 0 && s[0] == '+' {
        s.skip(1)
    } else {
        s
    }
}

/// The number that a text stands for: decimal digits, with or without a plus sign before them, of
/// a value that fits.
pub open spec fn as_u16(s: Seq<char>) -> Option<u16> {
    let digits = without_plus(s);
    if digits.len() > 0 && is_digits(digits) && digits_value(digits) <= u16::MAX {
        Some(digits_value(digits) as u16)
    } else {
        None
    }
}

/// The number that a text stands for, if it stands for one that fits.
pub fn parse_u16(s: &[char]) -> (r: Option<u16>)
    ensures
        r == as_u16(s@),
{
    let start: usize = if s.len() > 0 && s[0] == '+' {
        1
    } else {
        0
    };
    let digits = slice_subrange(s, start, s.len());
    assert(digits@ == without_plus(s@));
    if digits.len() == 0 {
        return None;
    }
    let mut value: u32 = 0;
    for i in 0..digits.len()
        invariant
            value <= u16::MAX,
            is_digits(digits@.take(i as int)),
            value == digits_value(digits@.take(i as int)),
            digits@ == without_plus(s@),
    {
        let c = digits[i];
        let ghost next = digits@.take(i + 1);
        assert(next.drop_last() == digits@.take(i as int));
        if c < '0' || c > '9' {
            assert(!is_digits(digits@)) by {
                assert(digits@[i as int] == c);
            }
            return None;
        }
        value = value * 10 + (c as u32 - '0' as u32);
        assert(is_digits(next)) by {
            assert forall|j: int| 0 <= j < next.len() implies '0' <= #[trigger] next[j] <= '9' by {
                if j < i {
                    assert(next[j] == digits@.take(i as int)[j]);
                }
            }
        }
        if value > u16::MAX as u32 {
            proof {
                lemma_digits_value_grows(digits@, i + 1);
            }
            return None;
        }
    }
    assert(digits@.take(digits@.len() as int) == digits@);
    Some(value as u16)
}

/// Appends a number in decimal.
pub fn push_decimal(out: &mut String, n: u64)
    ensures
        final(out)@ == old(out)@ + decimal(n as nat),
    decreases n,
{
    if n >= 10 {
        push_decimal(out, n / 10);
    }
    out.push((48u8 + (n % 10) as u8) as char);
}

/// Appends an integer in decimal.
pub fn push_signed_decimal(out: &mut String, n: i32)
    ensures
        final(out)@ == old(out)@ + signed_decimal(n as int),
{
    if n < 0 {
        out.push('-');
        push_decimal(out, (-(n as i64)) as u64);
    } else {
        push_decimal(out, n as u64);
    }
}

// ---------------------------------------------------------------------------------------------
// What holds of all texts

/// Which characters are white space: those with the Unicode property, by their code points.
pub proof fn white_space_is_fixed(c: char)
    ensures
        is_whitespace(c) <==> {
            let n = c as u32;
            ||| 9 <= n <= 13
            ||| n == 32
            ||| n == 133
            ||| n == 160
            ||| n == 5760
            ||| 8192 <= n <= 8202
            ||| n == 8232
            ||| n == 8233
            ||| n == 8239
            ||| n == 8287
            ||| n == 12288
        },
{
}

/// Two texts are the same but for case where they are equally long and differ nowhere by more than
/// the case of an ASCII letter.
pub proof fn only_case_is_ignored(a: Seq<char>, b: Seq<char>)
    ensures
        same_ignoring_ascii_case(a, b) <==> a.len() == b.len() && forall|i: int|
            0 <= i < a.len() ==> {
                let x = #[trigger] a[i] as int;
                let y = b[i] as int;
                ||| x == y
                ||| 65 <= x <= 90 && y == x + 32
                ||| 65 <= y <= 90 && x == y + 32
            },
{
    if a.len() == b.len() {
        assert forall|i: int| 0 <= i < a.len() implies (ascii_lower(#[trigger] a[i]) == ascii_lower(
            b[i],
        ) <==> {
            let x = a[i] as int;
            let y = b[i] as int;
            ||| x == y
            ||| 65 <= x <= 90 && y == x + 32
            ||| 65 <= y <= 90 && x == y + 32
        }) by {
            lemma_lower_code(a[i]);
            lemma_lower_code(b[i]);
        }
    }
}

proof fn lemma_lower_code(c: char)
    ensures
        ascii_lower(c) as int == (if 65 <= c as int <= 90 {
            c as int + 32
        } else {
            c as int
        }),
{
}

/// What the words of a text are: a text without white space is one word, white space separates, and
/// an empty text has none.
pub proof fn words_are_separated_by_blanks(word: Seq<char>, a: Seq<char>, blank: char, b: Seq<char>)
    requires
        word.len() > 0,
        forall|i: int| 0 <= i < word.len() ==> !is_whitespace(#[trigger] word[i]),
        is_whitespace(blank),
    ensures
        words(word) == seq![word],
        words(a + seq![blank] + b) == words(a) + words(b),
        words(Seq::empty()) == Seq::<Seq<char>>::empty(),
{
    lemma_one_word(word);
    lemma_words_around_blank(a, blank, b);
}

/// What the lines of a text are: a line end ends one, and a carriage return before it belongs to the
/// line end; what stands behind the last line end is a line too, if there is anything.
pub proof fn lines_are_separated_by_line_ends(a: Seq<char>, b: Seq<char>)
    requires
        !a.contains('\n'),
    ensures
        lines(a + seq!['\n'] + b) == seq![
            if a.len() > 0 && a.last() == '\r' {
                a.drop_last()
            } else {
                a
            },
        ] + lines(b),
        a.len() > 0 ==> lines(a) == seq![a],
        lines(Seq::empty()) == Seq::<Seq<char>>::empty(),
{
    let s = a + seq!['\n'] + b;
    let n = a.len() as int;
    assert forall|i: int| 0 <= i < n implies #[trigger] s[i] != '\n' by {
        assert(s[i] == a[i]);
    }
    assert(s[n] == '\n');
    lemma_position_unique(s, '\n', n);
    assert(s.take(n) == a);
    assert(s.skip(n + 1) == b);
    assert forall|i: int| 0 <= i < n implies #[trigger] a[i] != '\n' by {}
    lemma_position_unique(a, '\n', n);
}

/// Joining puts the separator between each two texts, and nowhere else.
pub proof fn separators_stand_between(
    parts: Seq<Seq<char>>,
    last: Seq<char>,
    separator: Seq<char>,
)
    ensures
        join(Seq::empty(), separator) == Seq::<char>::empty(),
        join(seq![last], separator) == last,
        parts.len() > 0 ==> join(parts.push(last), separator) == join(parts, separator) + separator
            + last,
{
    assert(parts.push(last).drop_last() == parts);
}

/// A number in decimal: one digit below ten, and the digits of the tenth part before the last one.
pub proof fn digits_are_decimal(n: nat, d: nat)
    requires
        d < 10,
    ensures
        decimal(d).len() == 1 && decimal(d)[0] as int == '0' as int + d,
        n > 0 ==> decimal(n * 10 + d) == decimal(n) + decimal(d),
        signed_decimal(n as int) == decimal(n),
        n > 0 ==> signed_decimal(-(n as int)) == seq!['-'] + decimal(n),
{
    if n > 0 {
        assert((n * 10 + d) / 10 == n);
        assert((n * 10 + d) % 10 == d);
        assert(decimal(n).push(digit(d)) == decimal(n) + decimal(d));
    }
}

proof fn lemma_decimal_value(n: nat)
    ensures
        is_digits(decimal(n)),
        digits_value(decimal(n)) == n,
        decimal(n).len() > 0,
    decreases n,
{
    let s = decimal(n);
    if n < 10 {
        assert(s.drop_last() == Seq::<char>::empty());
        assert(digits_value(s.drop_last()) == 0);
    } else {
        lemma_decimal_value(n / 10);
        assert(s.drop_last() == decimal(n / 10));
        assert forall|i: int| 0 <= i < s.len() implies '0' <= #[trigger] s[i] <= '9' by {
            if i < s.len() - 1 {
                assert(s[i] == decimal(n / 10)[i]);
            }
        }
    }
}

proof fn lemma_leading_zero(s: Seq<char>)
    ensures
        digits_value(seq!['0'] + s) == digits_value(s),
        is_digits(seq!['0'] + s) == is_digits(s),
    decreases s.len(),
{
    let t = seq!['0'] + s;
    if s.len() == 0 {
        assert(t.drop_last() == Seq::<char>::empty());
        assert(digits_value(t.drop_last()) == 0);
    } else {
        assert(t.drop_last() == seq!['0'] + s.drop_last());
        lemma_leading_zero(s.drop_last());
    }
    if is_digits(t) {
        assert forall|i: int| 0 <= i < s.len() implies '0' <= #[trigger] s[i] <= '9' by {
            assert(t[i + 1] == s[i]);
        }
    }
    if is_digits(s) {
        assert forall|i: int| 0 <= i < t.len() implies '0' <= #[trigger] t[i] <= '9' by {
            if i > 0 {
                assert(t[i] == s[i - 1]);
            }
        }
    }
}

/// A number is read back as it is written in decimal, if it is not above 65535. A plus sign before
/// it and leading zeros do not matter; anything else than digits makes it no number.
pub proof fn numbers_are_read_back(n: nat, s: Seq<char>, i: int)
    ensures
        n <= 65535 ==> as_u16(decimal(n)) == Some(n as u16),
        n > 65535 ==> as_u16(decimal(n)) is None,
        s.len() > 0 && s[0] != '+' ==> as_u16(seq!['+'] + s) == as_u16(s),
        s.len() > 0 && s[0] != '+' ==> as_u16(seq!['0'] + s) == as_u16(s),
        0 <= i < s.len() && !(48 <= s[i] as int <= 57) && (i > 0 || s[i] != '+') ==> as_u16(
            s,
        ) is None,
        as_u16(Seq::empty()) is None,
        as_u16(seq!['+']) is None,
{
    lemma_decimal_value(n);
    let d = decimal(n);
    assert('0' <= d[0] <= '9');
    assert(without_plus(d) == d);
    assert((seq!['+'] + s).skip(1) == s);
    lemma_leading_zero(s);
    assert(without_plus(seq!['0'] + s) == seq!['0'] + s);
    assert(seq!['+'].skip(1) == Seq::<char>::empty());
    if 0 <= i < s.len() && !(48 <= s[i] as int <= 57) && (i > 0 || s[i] != '+') {
        let t = without_plus(s);
        if s[0] == '+' {
            assert(t[i - 1] == s[i]);
        } else {
            assert(t[i] == s[i]);
        }
    }
}

/// Replacing: from the left, every occurrence becomes the replacement, and every other character
/// stays.
pub proof fn every_occurrence_is_replaced(s: Seq<char>, from: Seq<char>, to: Seq<char>)
    requires
        from.len() > 0,
    ensures
        replaced(Seq::empty(), from, to) == Seq::<char>::empty(),
        replaced(from + s, from, to) == to + replaced(s, from, to),
        s.len() > 0 && !from.is_prefix_of(s) ==> replaced(s, from, to) == seq![s[0]] + replaced(
            s.skip(1),
            from,
            to,
        ),
{
    let all = from + s;
    assert(all.subrange(0, from.len() as int) == from);
    assert(from.is_prefix_of(all));
    assert(all.skip(from.len() as int) == s);
}

/// Replacing brings in no character that neither the text nor the replacement holds.
pub proof fn lemma_replaced_brings_nothing(s: Seq<char>, from: Seq<char>, to: Seq<char>, c: char)
    requires
        !s.contains(c),
        !to.contains(c),
    ensures
        !replaced(s, from, to).contains(c),
    decreases s.len(),
{
    if s.len() > 0 {
        let (head, n) = if from.len() > 0 && from.is_prefix_of(s) {
            (to, from.len() as int)
        } else {
            (seq![s[0]], 1)
        };
        let rest = s.skip(n);
        assert(!rest.contains(c)) by {
            assert forall|i: int| 0 <= i < rest.len() implies rest[i] != c by {
                assert(rest[i] == s[n + i]);
            }
        }
        lemma_replaced_brings_nothing(rest, from, to, c);
        let tail = replaced(rest, from, to);
        assert(!head.contains(c)) by {
            assert(s.contains(s[0]));
        }
        assert(replaced(s, from, to) == head + tail);
        assert forall|i: int| 0 <= i < (head + tail).len() implies (head + tail)[i] != c by {
            if i < head.len() {
                assert((head + tail)[i] == head[i]);
            } else {
                assert((head + tail)[i] == tail[i - head.len()]);
            }
        }
    }
}

/// The texts of a list of strings are the strings themselves, one by one.
pub proof fn texts_are_taken_as_they_are(strings: Seq<String>, i: int)
    ensures
        texts(strings).len() == strings.len(),
        0 <= i < strings.len() ==> texts(strings)[i] == strings[i]@,
{
}

} // verus!
