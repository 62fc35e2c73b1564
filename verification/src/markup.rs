//! Markup: tags and elements, and the patterns that find them in a text.

use crate::text;
use vstd::prelude::*;

verus! {

// ---------------------------------------------------------------------------------------------
// Tags

/// Any tag: from a `<` to the next `>`.
pub const TAG_PATTERN: &'static str = "<[^>]*>";

/// A text without its tags. A tag is what stands from a `<` to the next `>`; a `<` without a `>`
/// behind it begins none.
pub open spec fn without_tags(s: Seq<char>) -> Seq<char>
    decreases s.len(),
{
    let start = text::position(s, '<') as int;
    let end = start + text::position(s.skip(start), '>');
    if start < s.len() && end < s.len() {
        s.take(start) + without_tags(s.skip(end + 1))
    } else {
        s
    }
}

/// A text that holds a tag: a `<`, and a `>` somewhere behind it.
pub open spec fn holds_tag(s: Seq<char>) -> bool {
    exists|i: int, j: int| 0 <= i < j < s.len() && #[trigger] s[i] == '<' && #[trigger] s[j] == '>'
}

/// A text from which the tags were removed holds no tag.
pub proof fn no_tag_is_left(s: Seq<char>)
    ensures
        !holds_tag(without_tags(s)),
    decreases s.len(),
{
    let start = text::position(s, '<') as int;
    let end = start + text::position(s.skip(start), '>');
    let r = without_tags(s);
    text::lemma_position(s, '<');
    text::lemma_position(s.skip(start), '>');
    if start < s.len() && end < s.len() {
        let rest = without_tags(s.skip(end + 1));
        no_tag_is_left(s.skip(end + 1));
        assert(r == s.take(start) + rest);
        assert forall|i: int, j: int| 0 <= i < j < r.len() && #[trigger] r[i] == '<' implies
            #[trigger] r[j] != '>' by {
            if i < start {
                assert(r[i] == s[i]);
            } else {
                assert(r[i] == rest[i - start]);
                assert(r[j] == rest[j - start]);
            }
        }
    } else {
        assert forall|i: int, j: int| 0 <= i < j < s.len() && #[trigger] s[i] == '<' implies
            #[trigger] s[j] != '>' by {
            assert(i >= start);
            assert(s.skip(start)[j - start] == s[j]);
        }
    }
}

/// A text that holds no tag stays as it is when tags are removed.
pub proof fn text_without_tags_stays(s: Seq<char>)
    requires
        !holds_tag(s),
    ensures
        without_tags(s) == s,
{
    let start = text::position(s, '<') as int;
    let end = start + text::position(s.skip(start), '>');
    text::lemma_position(s, '<');
    text::lemma_position(s.skip(start), '>');
    if start < s.len() && end < s.len() {
        assert(s[start] == '<');
        assert(s.skip(start)[end - start] == '>');
        assert(s[end] == '>');
    }
}

/// Removing the tags a second time changes nothing.
pub proof fn tags_are_removed_at_once(s: Seq<char>)
    ensures
        without_tags(without_tags(s)) == without_tags(s),
{
    no_tag_is_left(s);
    text_without_tags_stays(without_tags(s));
}

// ---------------------------------------------------------------------------------------------
// Elements

/// The title of a page.
pub const TITLE_PATTERN: &'static str = "<title\\b[^>]*>(.*?)</title\\s*>";

/// The pattern for an element from its start tag to its end tag.
pub open spec fn element_pattern(name: Seq<char>) -> Seq<char> {
    "<"@ + name + "\\b[^>]*>.*?</"@ + name + "\\s*>"@
}

/// The name of an element: up to sixteen small ASCII letters.
pub open spec fn is_element_name(name: Seq<char>) -> bool {
    &&& 0 < name.len() <= 16
    &&& forall|i: int| 0 <= i < name.len() ==> 'a' <= #[trigger] name[i] <= 'z'
}

/// Whether the text ends before a position, or has an ASCII character there that is not the given
/// small letter, nor its capital.
pub open spec fn differs(s: Seq<char>, at: int, letter: char) -> bool {
    at >= s.len() || (s[at] <= '\u{7f}' && text::ascii_lower(s[at]) != letter)
}

/// A letter or a digit of ASCII.
pub open spec fn is_alphanumeric(c: char) -> bool {
    'a' <= c <= 'z' || 'A' <= c <= 'Z' || '0' <= c <= '9'
}

/// Whether no start tag of that name begins at a position: there is no `<`, or another name
/// follows, or a longer one.
pub open spec fn no_start_at(s: Seq<char>, i: int, name: Seq<char>) -> bool {
    s[i] == '<' ==> {
        ||| exists|k: int| 0 <= k < name.len() && differs(s, i + 1 + k, #[trigger] name[k])
        ||| i + 1 + name.len() < s.len() && is_alphanumeric(s[i + 1 + name.len()])
    }
}

/// A text that holds no start tag of that name.
pub open spec fn holds_no_start(s: Seq<char>, name: Seq<char>) -> bool {
    forall|i: int| 0 <= i < s.len() ==> #[trigger] no_start_at(s, i, name)
}

/// Text, an element with text in it, and text.
pub open spec fn with_element(
    before: Seq<char>,
    tag: Seq<char>,
    content: Seq<char>,
    after: Seq<char>,
) -> Seq<char> {
    before + seq!['<'] + tag + seq!['>'] + content + seq!['<', '/'] + tag + seq!['>'] + after
}

/// Whether a tag has the given name, in whatever case, and the texts before, in and after the
/// element hold no markup.
pub open spec fn is_plain(
    before: Seq<char>,
    tag: Seq<char>,
    content: Seq<char>,
    after: Seq<char>,
    name: Seq<char>,
) -> bool {
    &&& text::same_ignoring_ascii_case(tag, name)
    &&& !before.contains('<')
    &&& !content.contains('<')
    &&& !after.contains('<')
}

/// The end tag of an element, from its slash on.
pub open spec fn end_of(name: Seq<char>) -> Seq<char> {
    seq!['/'] + name
}

/// Whether a tag has the given name, in whatever case, no start tag of that name stands before or
/// after the element, and no end tag of that name in it.
pub open spec fn is_framed(
    before: Seq<char>,
    tag: Seq<char>,
    content: Seq<char>,
    after: Seq<char>,
    name: Seq<char>,
) -> bool {
    &&& text::same_ignoring_ascii_case(tag, name)
    &&& holds_no_start(before, name)
    &&& holds_no_start(content, end_of(name))
    &&& holds_no_start(after, name)
}

/// What is left of a text that holds one element of that name.
pub open spec fn without_lone_element(s: Seq<char>, name: Seq<char>) -> Option<Seq<char>> {
    if exists|a: Seq<char>, tag: Seq<char>, c: Seq<char>, b: Seq<char>|
        s == #[trigger] with_element(a, tag, c, b) && is_framed(a, tag, c, b, name) {
        let (a, tag, c, b) = choose|a: Seq<char>, tag: Seq<char>, c: Seq<char>, b: Seq<char>|
            s == #[trigger] with_element(a, tag, c, b) && is_framed(a, tag, c, b, name);
        Some(a + b)
    } else {
        None
    }
}

/// What stands in the first element of that name in a text, where no end tag of that name stands
/// in it before its own.
pub open spec fn first_content(s: Seq<char>, name: Seq<char>) -> Option<Seq<char>> {
    if exists|a: Seq<char>, tag: Seq<char>, c: Seq<char>, b: Seq<char>|
        s == #[trigger] with_element(a, tag, c, b) && is_first(a, tag, c, name) {
        let (a, tag, c, b) = choose|a: Seq<char>, tag: Seq<char>, c: Seq<char>, b: Seq<char>|
            s == #[trigger] with_element(a, tag, c, b) && is_first(a, tag, c, name);
        Some(c)
    } else {
        None
    }
}

/// Whether a tag has the given name, in whatever case, no start tag of that name stands before the
/// element, and no end tag of that name in it.
pub open spec fn is_first(
    before: Seq<char>,
    tag: Seq<char>,
    content: Seq<char>,
    name: Seq<char>,
) -> bool {
    &&& text::same_ignoring_ascii_case(tag, name)
    &&& holds_no_start(before, name)
    &&& holds_no_start(content, end_of(name))
}

/// What equals the name of an element but for its case consists of ASCII letters.
pub proof fn lemma_letter(tag: Seq<char>, name: Seq<char>, i: int)
    requires
        is_element_name(name),
        text::same_ignoring_ascii_case(tag, name),
        0 <= i < tag.len(),
    ensures
        tag[i] <= '\u{7f}',
        tag[i] != '<',
        text::ascii_lower(tag[i]) == name[i],
        is_alphanumeric(tag[i]),
{
    assert('a' <= name[i] <= 'z');
    assert(text::ascii_lower(tag[i]) == text::ascii_lower(name[i]));
}

/// What no tag can begin with, nor go on with: neither `<` nor `>`, nor a capital letter.
spec fn is_lowercase_word(w: Seq<char>) -> bool {
    forall|k: int|
        0 <= k < w.len() ==> (#[trigger] w[k] != '<' && w[k] != '>' && !('A' <= w[k] <= 'Z'))
}

proof fn lemma_words_of_names(name: Seq<char>)
    requires
        is_element_name(name),
    ensures
        is_lowercase_word(name),
        is_lowercase_word(end_of(name)),
{
    assert forall|k: int| 0 <= k < end_of(name).len() implies (#[trigger] end_of(name)[k] != '<'
        && end_of(name)[k] != '>' && !('A' <= end_of(name)[k] <= 'Z')) by {
        if k > 0 {
            assert(end_of(name)[k] == name[k - 1]);
        }
    }
}

/// Where a text ends in a tag, or one begins, no start tag reaches over from what stands before.
proof fn lemma_no_start_before(u: Seq<char>, v: Seq<char>, w: Seq<char>)
    requires
        is_lowercase_word(w),
        holds_no_start(u, w),
        (v.len() > 0 && v[0] == '<') || (u.len() > 0 && u.last() == '>') || u.len() == 0
            || v.len() == 0,
    ensures
        forall|i: int| 0 <= i < u.len() ==> #[trigger] no_start_at(u + v, i, w),
{
    let s = u + v;
    assert forall|i: int| 0 <= i < u.len() implies #[trigger] no_start_at(s, i, w) by {
        assert(no_start_at(u, i, w));
        assert(s[i] == u[i]);
        if u[i] == '<' {
            if exists|k: int| 0 <= k < w.len() && differs(u, i + 1 + k, #[trigger] w[k]) {
                let k = choose|k: int| 0 <= k < w.len() && differs(u, i + 1 + k, #[trigger] w[k]);
                if i + 1 + k < u.len() {
                    assert(s[i + 1 + k] == u[i + 1 + k]);
                    assert(differs(s, i + 1 + k, w[k]));
                } else if v.len() == 0 {
                    assert(differs(s, i + 1 + k, w[k]));
                } else if u.last() == '>' {
                    let m = u.len() - 2 - i;
                    assert(s[u.len() - 1] == '>');
                    assert(differs(s, i + 1 + m, w[m]));
                } else {
                    let m = u.len() - 1 - i;
                    assert(s[u.len() as int] == v[0]);
                    assert(differs(s, i + 1 + m, w[m]));
                }
            } else {
                assert(s[i + 1 + w.len()] == u[i + 1 + w.len()]);
            }
        }
    }
}

/// A start tag is one wherever it stands.
proof fn lemma_no_start_after(u: Seq<char>, v: Seq<char>, w: Seq<char>)
    ensures
        forall|i: int|
            0 <= i < v.len() ==> (#[trigger] no_start_at(v, i, w) <==> no_start_at(
                u + v,
                u.len() + i,
                w,
            )),
{
    let s = u + v;
    assert forall|i: int| 0 <= i < v.len() implies (#[trigger] no_start_at(v, i, w)
        <==> no_start_at(s, u.len() + i, w)) by {
        let j = u.len() + i;
        assert(s[j] == v[i]);
        assert forall|k: int| 0 <= k < w.len() implies differs(v, i + 1 + k, #[trigger] w[k])
            == differs(s, j + 1 + k, w[k]) by {
            if i + 1 + k < v.len() {
                assert(s[j + 1 + k] == v[i + 1 + k]);
            }
        }
        if exists|k: int| 0 <= k < w.len() && differs(v, i + 1 + k, #[trigger] w[k]) {
            let k = choose|k: int| 0 <= k < w.len() && differs(v, i + 1 + k, #[trigger] w[k]);
            assert(differs(s, j + 1 + k, w[k]));
        }
        if exists|k: int| 0 <= k < w.len() && differs(s, j + 1 + k, #[trigger] w[k]) {
            let k = choose|k: int| 0 <= k < w.len() && differs(s, j + 1 + k, #[trigger] w[k]);
            assert(differs(v, i + 1 + k, w[k]));
        }
        if i + 1 + w.len() < v.len() {
            assert(s[j + 1 + w.len()] == v[i + 1 + w.len()]);
        }
    }
}

/// Two texts without a start tag have none together, where a tag ends or begins between them.
pub proof fn lemma_no_start_concat(u: Seq<char>, v: Seq<char>, name: Seq<char>)
    requires
        is_element_name(name),
        holds_no_start(u, name),
        holds_no_start(v, name),
        (v.len() > 0 && v[0] == '<') || (u.len() > 0 && u.last() == '>') || u.len() == 0
            || v.len() == 0,
    ensures
        holds_no_start(u + v, name),
{
    lemma_words_of_names(name);
    lemma_no_start_before(u, v, name);
    lemma_no_start_after(u, v, name);
    assert forall|i: int| 0 <= i < (u + v).len() implies #[trigger] no_start_at(
        u + v,
        i,
        name,
    ) by {
        if i >= u.len() {
            assert(no_start_at(v, i - u.len(), name));
        }
    }
}

/// What stands at the end of a text without a start tag has none.
pub proof fn lemma_no_start_in_rest(u: Seq<char>, v: Seq<char>, name: Seq<char>)
    requires
        holds_no_start(u + v, name),
    ensures
        holds_no_start(v, name),
{
    lemma_no_start_after(u, v, name);
    assert forall|i: int| 0 <= i < v.len() implies #[trigger] no_start_at(v, i, name) by {
        assert(no_start_at(u + v, u.len() + i, name));
    }
}

/// A tag begins where it stands.
proof fn lemma_tag_begins(tag: Seq<char>, v: Seq<char>, w: Seq<char>)
    requires
        is_lowercase_word(w),
        text::same_ignoring_ascii_case(tag, w),
    ensures
        !no_start_at(seq!['<'] + tag + seq!['>'] + v, 0, w),
{
    let s = seq!['<'] + tag + seq!['>'] + v;
    assert forall|k: int| 0 <= k < w.len() implies !differs(s, 1 + k, #[trigger] w[k]) by {
        assert(s[1 + k] == tag[k]);
        assert(text::ascii_lower(tag[k]) == text::ascii_lower(w[k]));
    }
    assert(s[0] == '<');
    assert(s[1 + w.len() as int] == '>');
}

/// Of two places at which a text goes on with the same tag for the first time, neither is before
/// the other.
proof fn lemma_same_place(
    u: Seq<char>,
    t: Seq<char>,
    v: Seq<char>,
    x: Seq<char>,
    y: Seq<char>,
    z: Seq<char>,
    w: Seq<char>,
)
    requires
        is_lowercase_word(w),
        text::same_ignoring_ascii_case(t, w),
        text::same_ignoring_ascii_case(y, w),
        holds_no_start(u, w),
        holds_no_start(x, w),
        u + (seq!['<'] + t + seq!['>'] + v) == x + (seq!['<'] + y + seq!['>'] + z),
    ensures
        u == x,
        t == y,
        v == z,
{
    let p = seq!['<'] + t + seq!['>'] + v;
    let q = seq!['<'] + y + seq!['>'] + z;
    let s = u + p;
    lemma_no_start_before(u, p, w);
    lemma_no_start_before(x, q, w);
    lemma_tag_begins(t, v, w);
    lemma_tag_begins(y, z, w);
    lemma_no_start_after(u, p, w);
    lemma_no_start_after(x, q, w);
    assert(!no_start_at(p, 0, w));
    assert(!no_start_at(q, 0, w));
    assert(!no_start_at(s, (u.len() + 0) as int, w));
    assert(!no_start_at(s, (x.len() + 0) as int, w));
    if u.len() < x.len() {
        assert(no_start_at(x + q, u.len() as int, w));
    } else if x.len() < u.len() {
        assert(no_start_at(u + p, x.len() as int, w));
    }
    assert(u == s.take(u.len() as int));
    assert(x == s.take(u.len() as int));
    let n = w.len() as int;
    let m = u.len() as int;
    assert(t == s.subrange(m + 1, m + 1 + n));
    assert(y == s.subrange(m + 1, m + 1 + n));
    assert(v == s.skip(m + n + 2));
    assert(z == s.skip(m + n + 2));
}

/// A text with an element, cut before the element and before its end.
proof fn lemma_with_element_parts(a: Seq<char>, tag: Seq<char>, c: Seq<char>, b: Seq<char>)
    ensures
        with_element(a, tag, c, b) == a + (seq!['<'] + tag + seq!['>'] + (c + (seq!['<'] + end_of(
            tag,
        ) + seq!['>'] + b))),
{
}

/// The first element of a name is the only one to be the first.
proof fn lemma_first_is_unique(
    a: Seq<char>,
    tag: Seq<char>,
    c: Seq<char>,
    b: Seq<char>,
    x: Seq<char>,
    t: Seq<char>,
    y: Seq<char>,
    z: Seq<char>,
    name: Seq<char>,
)
    requires
        is_element_name(name),
        is_first(a, tag, c, name),
        is_first(x, t, y, name),
        with_element(a, tag, c, b) == with_element(x, t, y, z),
    ensures
        a == x,
        c == y,
        b == z,
{
    lemma_words_of_names(name);
    lemma_with_element_parts(a, tag, c, b);
    lemma_with_element_parts(x, t, y, z);
    let p = seq!['<'] + end_of(tag) + seq!['>'] + b;
    let q = seq!['<'] + end_of(t) + seq!['>'] + z;
    lemma_same_place(a, tag, c + p, x, t, y + q, name);
    lemma_end_of(tag, name);
    lemma_end_of(t, name);
    lemma_same_place(c, end_of(tag), b, y, end_of(t), z, end_of(name));
}

/// A plain element is framed.
pub proof fn lemma_plain_is_framed(
    a: Seq<char>,
    tag: Seq<char>,
    c: Seq<char>,
    b: Seq<char>,
    name: Seq<char>,
)
    requires
        is_plain(a, tag, c, b, name),
    ensures
        is_framed(a, tag, c, b, name),
{
    lemma_no_markup(a, name);
    lemma_no_markup(c, end_of(name));
    lemma_no_markup(b, name);
}

proof fn lemma_end_of(tag: Seq<char>, name: Seq<char>)
    requires
        text::same_ignoring_ascii_case(tag, name),
    ensures
        text::same_ignoring_ascii_case(end_of(tag), end_of(name)),
{
    assert forall|k: int| 0 <= k < end_of(tag).len() implies text::ascii_lower(
        #[trigger] end_of(tag)[k],
    ) == text::ascii_lower(end_of(name)[k]) by {
        if k > 0 {
            assert(end_of(tag)[k] == tag[k - 1]);
            assert(end_of(name)[k] == name[k - 1]);
            assert(text::ascii_lower(tag[k - 1]) == text::ascii_lower(name[k - 1]));
        }
    }
}

/// What is left of a text with a lone element is the text around it.
pub proof fn lemma_without_lone_element(
    a: Seq<char>,
    tag: Seq<char>,
    c: Seq<char>,
    b: Seq<char>,
    name: Seq<char>,
)
    requires
        is_element_name(name),
        is_framed(a, tag, c, b, name),
    ensures
        without_lone_element(with_element(a, tag, c, b), name) == Some(a + b),
        !holds_no_start(with_element(a, tag, c, b), name),
{
    let s = with_element(a, tag, c, b);
    let (x, t, y, z) = choose|x: Seq<char>, t: Seq<char>, y: Seq<char>, z: Seq<char>|
        s == #[trigger] with_element(x, t, y, z) && is_framed(x, t, y, z, name);
    lemma_first_is_unique(a, tag, c, b, x, t, y, z, name);
    lemma_begins_here(a, tag, c, b, name);
}

proof fn lemma_begins_here(
    a: Seq<char>,
    tag: Seq<char>,
    c: Seq<char>,
    b: Seq<char>,
    name: Seq<char>,
)
    requires
        is_element_name(name),
        text::same_ignoring_ascii_case(tag, name),
    ensures
        !holds_no_start(with_element(a, tag, c, b), name),
{
    let v = c + (seq!['<'] + end_of(tag) + seq!['>'] + b);
    let p = seq!['<'] + tag + seq!['>'] + v;
    lemma_with_element_parts(a, tag, c, b);
    lemma_words_of_names(name);
    lemma_tag_begins(tag, v, name);
    lemma_no_start_after(a, p, name);
    assert(!no_start_at(p, 0, name));
    assert(!no_start_at(with_element(a, tag, c, b), (a.len() + 0) as int, name));
}

/// What stands in the first element of a name.
pub proof fn lemma_first_content(
    a: Seq<char>,
    tag: Seq<char>,
    c: Seq<char>,
    b: Seq<char>,
    name: Seq<char>,
)
    requires
        is_element_name(name),
        is_first(a, tag, c, name),
    ensures
        first_content(with_element(a, tag, c, b), name) == Some(c),
        !holds_no_start(with_element(a, tag, c, b), name),
{
    let s = with_element(a, tag, c, b);
    let (x, t, y, z) = choose|x: Seq<char>, t: Seq<char>, y: Seq<char>, z: Seq<char>|
        s == #[trigger] with_element(x, t, y, z) && is_first(x, t, y, name);
    lemma_first_is_unique(a, tag, c, b, x, t, y, z, name);
    lemma_begins_here(a, tag, c, b, name);
}

/// A text without `<` holds no start tag.
pub proof fn lemma_no_markup(s: Seq<char>, name: Seq<char>)
    requires
        !s.contains('<'),
    ensures
        holds_no_start(s, name),
{
}

/// Neither of two names begins with the other.
pub open spec fn are_apart(a: Seq<char>, b: Seq<char>) -> bool {
    exists|k: int| 0 <= k < a.len() && k < b.len() && #[trigger] a[k] != b[k]
}

/// The name of a tag: letters and digits of ASCII.
pub open spec fn is_tag_name(tag: Seq<char>) -> bool {
    &&& tag.len() > 0
    &&& forall|i: int| 0 <= i < tag.len() ==> is_alphanumeric(#[trigger] tag[i])
}

/// The tags of one name, by themselves, are no start tags of another one.
pub proof fn lemma_another_tag(tag: Seq<char>, other: Seq<char>)
    requires
        is_tag_name(tag),
        is_element_name(other),
        !text::same_ignoring_ascii_case(tag, other),
    ensures
        holds_no_start(seq!['<'] + tag + seq!['>'], other),
        holds_no_start(seq!['<'] + end_of(tag) + seq!['>'], other),
{
    let s = seq!['<'] + tag + seq!['>'];
    assert forall|i: int| 0 <= i < s.len() implies #[trigger] no_start_at(s, i, other) by {
        if 0 < i <= tag.len() {
            assert(s[i] == tag[i - 1]);
            assert(is_alphanumeric(tag[i - 1]));
        } else if i == 0 {
            let n = tag.len() as int;
            if exists|k: int|
                0 <= k < n && k < other.len() && text::ascii_lower(#[trigger] tag[k]) != other[k] {
                let k = choose|k: int|
                    0 <= k < n && k < other.len() && text::ascii_lower(#[trigger] tag[k])
                        != other[k];
                assert(s[1 + k] == tag[k]);
                assert(is_alphanumeric(tag[k]));
                assert(differs(s, 0 + 1 + k, other[k]));
            } else if n < other.len() {
                assert(s[1 + n] == '>');
                assert('a' <= other[n] <= 'z');
                assert(differs(s, 0 + 1 + n, other[n]));
            } else if n > other.len() {
                assert(s[1 + other.len() as int] == tag[other.len() as int]);
                assert(is_alphanumeric(tag[other.len() as int]));
            } else {
                assert forall|k: int| 0 <= k < n implies text::ascii_lower(#[trigger] tag[k])
                    == text::ascii_lower(other[k]) by {
                    assert('a' <= other[k] <= 'z');
                }
            }
        }
    }
    let e = seq!['<'] + end_of(tag) + seq!['>'];
    assert forall|i: int| 0 <= i < e.len() implies #[trigger] no_start_at(e, i, other) by {
        if 1 < i <= tag.len() + 1 {
            assert(e[i] == tag[i - 2]);
            assert(is_alphanumeric(tag[i - 2]));
        } else if i == 0 {
            assert(e[1] == '/');
            assert('a' <= other[0] <= 'z');
            assert(differs(e, 0 + 1 + 0int, other[0]));
        }
    }
}

/// A text with an element holds no start tag of another name, if its parts hold none.
pub proof fn lemma_another_element(
    a: Seq<char>,
    tag: Seq<char>,
    c: Seq<char>,
    b: Seq<char>,
    other: Seq<char>,
)
    requires
        is_tag_name(tag),
        is_element_name(other),
        !text::same_ignoring_ascii_case(tag, other),
        holds_no_start(a, other),
        holds_no_start(c, other),
        holds_no_start(b, other),
    ensures
        holds_no_start(with_element(a, tag, c, b), other),
{
    let start = seq!['<'] + tag + seq!['>'];
    let end = seq!['<'] + end_of(tag) + seq!['>'];
    lemma_another_tag(tag, other);
    lemma_no_start_concat(end, b, other);
    lemma_no_start_concat(c, end + b, other);
    lemma_no_start_concat(start, c + (end + b), other);
    lemma_no_start_concat(a, start + (c + (end + b)), other);
    lemma_with_element_parts(a, tag, c, b);
}

// ---------------------------------------------------------------------------------------------
// Pages of simple tags

/// A tag that holds a name and nothing else, but for the slash of an end tag.
pub open spec fn is_simple_tag(tag: Seq<char>) -> bool {
    is_tag_name(tag) || (tag.len() > 0 && tag[0] == '/' && is_tag_name(tag.skip(1)))
}

/// A text in which every `<` begins a simple tag.
pub open spec fn holds_simple_tags(s: Seq<char>) -> bool
    decreases s.len(),
{
    let start = text::position(s, '<') as int;
    let end = start + text::position(s.skip(start), '>');
    start < s.len() ==> {
        &&& end < s.len()
        &&& is_simple_tag(s.subrange(start + 1, end))
        &&& holds_simple_tags(s.skip(end + 1))
    }
}

/// The kinds of tags that begin a line.
pub ghost enum TagKind {
    /// The start of a list item.
    ListItem,
    /// The start or the end of an element that stands on lines of its own.
    Block,
}

/// The names of the elements that stand on lines of their own, in whatever case.
pub open spec fn is_block_name(name: Seq<char>) -> bool {
    ||| text::same_ignoring_ascii_case(name, "address"@)
    ||| text::same_ignoring_ascii_case(name, "article"@)
    ||| text::same_ignoring_ascii_case(name, "aside"@)
    ||| text::same_ignoring_ascii_case(name, "blockquote"@)
    ||| text::same_ignoring_ascii_case(name, "br"@)
    ||| text::same_ignoring_ascii_case(name, "dd"@)
    ||| text::same_ignoring_ascii_case(name, "div"@)
    ||| text::same_ignoring_ascii_case(name, "dl"@)
    ||| text::same_ignoring_ascii_case(name, "dt"@)
    ||| text::same_ignoring_ascii_case(name, "fieldset"@)
    ||| text::same_ignoring_ascii_case(name, "figcaption"@)
    ||| text::same_ignoring_ascii_case(name, "figure"@)
    ||| text::same_ignoring_ascii_case(name, "footer"@)
    ||| text::same_ignoring_ascii_case(name, "form"@)
    ||| text::same_ignoring_ascii_case(name, "h1"@)
    ||| text::same_ignoring_ascii_case(name, "h2"@)
    ||| text::same_ignoring_ascii_case(name, "h3"@)
    ||| text::same_ignoring_ascii_case(name, "h4"@)
    ||| text::same_ignoring_ascii_case(name, "h5"@)
    ||| text::same_ignoring_ascii_case(name, "h6"@)
    ||| text::same_ignoring_ascii_case(name, "header"@)
    ||| text::same_ignoring_ascii_case(name, "hr"@)
    ||| text::same_ignoring_ascii_case(name, "main"@)
    ||| text::same_ignoring_ascii_case(name, "nav"@)
    ||| text::same_ignoring_ascii_case(name, "ol"@)
    ||| text::same_ignoring_ascii_case(name, "p"@)
    ||| text::same_ignoring_ascii_case(name, "section"@)
    ||| text::same_ignoring_ascii_case(name, "table"@)
    ||| text::same_ignoring_ascii_case(name, "tbody"@)
    ||| text::same_ignoring_ascii_case(name, "td"@)
    ||| text::same_ignoring_ascii_case(name, "tfoot"@)
    ||| text::same_ignoring_ascii_case(name, "th"@)
    ||| text::same_ignoring_ascii_case(name, "thead"@)
    ||| text::same_ignoring_ascii_case(name, "tr"@)
    ||| text::same_ignoring_ascii_case(name, "ul"@)
}

/// Whether a simple tag is of a kind.
pub open spec fn is_of_kind(kind: TagKind, tag: Seq<char>) -> bool {
    match kind {
        TagKind::ListItem => text::same_ignoring_ascii_case(tag, "li"@),
        TagKind::Block => is_block_name(tag) || (tag.len() > 0 && tag[0] == '/' && is_block_name(
            tag.skip(1),
        )),
    }
}

/// A text in which the tags of one kind have become something else.
pub open spec fn tags_replaced(kind: TagKind, s: Seq<char>, replacement: Seq<char>) -> Seq<char>
    decreases s.len(),
{
    let start = text::position(s, '<') as int;
    let end = start + text::position(s.skip(start), '>');
    if start < s.len() && end < s.len() {
        s.take(start) + (if is_of_kind(kind, s.subrange(start + 1, end)) {
            replacement
        } else {
            s.subrange(start, end + 1)
        }) + tags_replaced(kind, s.skip(end + 1), replacement)
    } else {
        s
    }
}

/// A tag, written out.
pub open spec fn tag_text(tag: Seq<char>) -> Seq<char> {
    seq!['<'] + tag + seq!['>']
}

/// A simple tag holds no `<`, no `>` and no `=`.
pub proof fn lemma_simple_tag(tag: Seq<char>)
    requires
        is_simple_tag(tag),
    ensures
        forall|i: int|
            0 <= i < tag.len() ==> #[trigger] tag[i] != '<' && tag[i] != '>' && tag[i] != '=',
{
    assert forall|i: int| 0 <= i < tag.len() implies #[trigger] tag[i] != '<' && tag[i] != '>'
        && tag[i] != '=' by {
        if is_tag_name(tag) {
            assert(is_alphanumeric(tag[i]));
        } else if i > 0 {
            assert(is_alphanumeric(tag.skip(1)[i - 1]));
        }
    }
}

/// Where the first tag of a text stands.
proof fn lemma_first_tag(u: Seq<char>, tag: Seq<char>, v: Seq<char>)
    requires
        !u.contains('<'),
        is_simple_tag(tag),
    ensures
        ({
            let s = u + tag_text(tag) + v;
            let start = u.len() as int;
            let end = start + 1 + tag.len();
            &&& text::position(s, '<') == start
            &&& start + text::position(s.skip(start), '>') == end
            &&& start < s.len() && end < s.len()
            &&& s.take(start) == u
            &&& s.subrange(start + 1, end) == tag
            &&& s.subrange(start, end + 1) == tag_text(tag)
            &&& s.skip(end + 1) == v
        }),
{
    let s = u + tag_text(tag) + v;
    let start = u.len() as int;
    let end = start + 1 + tag.len();
    lemma_simple_tag(tag);
    assert forall|i: int| 0 <= i < start implies #[trigger] s[i] != '<' by {
        assert(s[i] == u[i]);
    }
    assert(s[start] == '<');
    text::lemma_position_unique(s, '<', start);
    let rest = s.skip(start);
    assert forall|i: int| 0 <= i < 1 + tag.len() implies #[trigger] rest[i] != '>' by {
        if i > 0 {
            assert(rest[i] == tag[i - 1]);
        }
    }
    assert(rest[1 + tag.len() as int] == '>');
    text::lemma_position_unique(rest, '>', 1 + tag.len() as int);
    assert(s.take(start) == u);
    assert(s.subrange(start + 1, end) == tag);
    assert(s.subrange(start, end + 1) == tag_text(tag));
    assert(s.skip(end + 1) == v);
}

/// What holds of a text with a tag in it, by what stands behind the tag.
pub proof fn lemma_tag_is_first(u: Seq<char>, tag: Seq<char>, v: Seq<char>)
    requires
        !u.contains('<'),
        is_simple_tag(tag),
    ensures
        holds_simple_tags(u + tag_text(tag) + v) == holds_simple_tags(v),
        without_tags(u + tag_text(tag) + v) == u + without_tags(v),
        forall|kind: TagKind, replacement: Seq<char>| #[trigger]
            tags_replaced(kind, u + tag_text(tag) + v, replacement) == u + (if is_of_kind(
                kind,
                tag,
            ) {
                replacement
            } else {
                tag_text(tag)
            }) + tags_replaced(kind, v, replacement),
{
    lemma_first_tag(u, tag, v);
}

/// What holds of a text without a tag.
pub proof fn lemma_no_tag(u: Seq<char>)
    requires
        !u.contains('<'),
    ensures
        holds_simple_tags(u),
        without_tags(u) == u,
        forall|kind: TagKind, replacement: Seq<char>| #[trigger]
            tags_replaced(kind, u, replacement) == u,
{
    text::lemma_position(u, '<');
    assert(text::position(u, '<') == u.len());
}

/// A text of simple tags is text without a tag, or begins with such text and a simple tag.
pub proof fn lemma_simple_page(s: Seq<char>)
    requires
        holds_simple_tags(s),
        s.contains('<'),
    ensures
        ({
            let start = text::position(s, '<') as int;
            let end = start + text::position(s.skip(start), '>');
            let u = s.take(start);
            let tag = s.subrange(start + 1, end);
            let v = s.skip(end + 1);
            &&& start < s.len()
            &&& end < s.len()
            &&& !u.contains('<')
            &&& is_simple_tag(tag)
            &&& holds_simple_tags(v)
            &&& v.len() < s.len()
            &&& s == u + tag_text(tag) + v
        }),
{
    let start = text::position(s, '<') as int;
    let end = start + text::position(s.skip(start), '>');
    text::lemma_position(s, '<');
    text::lemma_position(s.skip(start), '>');
    if start == s.len() {
        let i = choose|i: int| 0 <= i < s.len() && s[i] == '<';
        assert(s[i] != '<');
    }
    assert(s[start] == '<');
    assert(s.skip(start)[0] == '<');
    assert(s.skip(start)[end - start] == '>');
    assert(s == s.take(start) + tag_text(s.subrange(start + 1, end)) + s.skip(end + 1));
    assert forall|i: int| 0 <= i < start implies s.take(start)[i] != '<' by {
        assert(s[i] != '<');
    }
}

/// Text before a page changes nothing in it.
pub proof fn lemma_text_before(u: Seq<char>, v: Seq<char>)
    requires
        !u.contains('<'),
        holds_simple_tags(v),
    ensures
        holds_simple_tags(u + v),
        without_tags(u + v) == u + without_tags(v),
        forall|kind: TagKind, replacement: Seq<char>| #[trigger]
            tags_replaced(kind, u + v, replacement) == u + tags_replaced(kind, v, replacement),
{
    if v.contains('<') {
        lemma_simple_page(v);
        let start = text::position(v, '<') as int;
        let end = start + text::position(v.skip(start), '>');
        let w = v.take(start);
        let tag = v.subrange(start + 1, end);
        let rest = v.skip(end + 1);
        assert(!(u + w).contains('<')) by {
            lemma_no_markup_concat(u, w);
        }
        assert(u + v == (u + w) + tag_text(tag) + rest);
        lemma_tag_is_first(w, tag, rest);
        lemma_tag_is_first(u + w, tag, rest);
        assert(u + (w + without_tags(rest)) == (u + w) + without_tags(rest));
        assert forall|kind: TagKind, replacement: Seq<char>| #[trigger]
            tags_replaced(kind, u + v, replacement) == u + tags_replaced(
                kind,
                v,
                replacement,
            ) by {
            let mark = if is_of_kind(kind, tag) {
                replacement
            } else {
                tag_text(tag)
            };
            let last = tags_replaced(kind, rest, replacement);
            assert(tags_replaced(kind, (u + w) + tag_text(tag) + rest, replacement) == (u + w)
                + mark + last);
            assert(tags_replaced(kind, w + tag_text(tag) + rest, replacement) == w + mark + last);
            assert(u + (w + mark + last) == (u + w) + mark + last);
        }
    } else {
        lemma_no_markup_concat(u, v);
        lemma_no_tag(v);
        lemma_no_tag(u + v);
    }
}

/// Two texts without `<` have none together.
pub proof fn lemma_no_markup_concat(u: Seq<char>, v: Seq<char>)
    requires
        !u.contains('<'),
        !v.contains('<'),
    ensures
        !(u + v).contains('<'),
{
    assert forall|i: int| 0 <= i < (u + v).len() implies (u + v)[i] != '<' by {
        if i < u.len() {
            assert((u + v)[i] == u[i]);
        } else {
            assert((u + v)[i] == v[i - u.len()]);
        }
    }
}

/// A page of simple tags stays one when some of its tags become text.
pub proof fn lemma_still_simple(kind: TagKind, s: Seq<char>, replacement: Seq<char>)
    requires
        holds_simple_tags(s),
        !replacement.contains('<'),
    ensures
        holds_simple_tags(tags_replaced(kind, s, replacement)),
    decreases s.len(),
{
    if s.contains('<') {
        lemma_simple_page(s);
        let start = text::position(s, '<') as int;
        let end = start + text::position(s.skip(start), '>');
        let u = s.take(start);
        let tag = s.subrange(start + 1, end);
        let v = s.skip(end + 1);
        lemma_still_simple(kind, v, replacement);
        lemma_tag_is_first(u, tag, v);
        let last = tags_replaced(kind, v, replacement);
        if is_of_kind(kind, tag) {
            lemma_no_markup_concat(u, replacement);
            lemma_text_before(u + replacement, last);
        } else {
            lemma_tag_is_first(u, tag, last);
        }
    } else {
        lemma_no_tag(s);
    }
}

// ---------------------------------------------------------------------------------------------
// Links

/// A text with an attribute in a tag: a `<` and an equals sign behind it, with no `>` between.
pub open spec fn holds_attribute(s: Seq<char>) -> bool {
    exists|i: int, j: int|
        0 <= i < j < s.len() && #[trigger] s[i] == '<' && #[trigger] s[j] == '=' && !s.subrange(
            i,
            j,
        ).contains('>')
}

/// Simple tags have no attributes.
pub proof fn lemma_no_attribute(s: Seq<char>)
    requires
        holds_simple_tags(s),
    ensures
        !holds_attribute(s),
    decreases s.len(),
{
    if s.contains('<') {
        lemma_simple_page(s);
        let start = text::position(s, '<') as int;
        let end = start + text::position(s.skip(start), '>');
        let u = s.take(start);
        let tag = s.subrange(start + 1, end);
        let v = s.skip(end + 1);
        lemma_no_attribute(v);
        lemma_simple_tag(tag);
        assert(s[end] == '>') by {
            text::lemma_position(s.skip(start), '>');
            assert(s.skip(start)[end - start] == '>');
        }
        assert forall|i: int, j: int|
            0 <= i < j < s.len() && #[trigger] s[i] == '<' && #[trigger] s[j]
                == '=' implies s.subrange(i, j).contains('>') by {
            if i < start {
                assert(u[i] == s[i]);
            } else if i <= end {
                if i > start && i < end {
                    assert(tag[i - start - 1] == s[i]);
                }
                if j < end {
                    assert(tag[j - start - 1] == s[j]);
                }
                assert(s.subrange(i, j)[end - i] == '>');
            } else {
                assert(v[i - end - 1] == s[i]);
                assert(v[j - end - 1] == s[j]);
                assert(v.subrange(i - end - 1, j - end - 1) == s.subrange(i, j));
            }
        }
    }
}

/// Text, a link with text in it, and text.
pub open spec fn with_link(
    before: Seq<char>,
    href: Seq<char>,
    label: Seq<char>,
    after: Seq<char>,
) -> Seq<char> {
    before + seq!['<', 'a', ' ', 'h', 'r', 'e', 'f', '=', '"'] + href + seq!['"', '>'] + label
        + seq!['<', '/', 'a', '>'] + after
}

/// Whether the parts of a text with a link hold no markup, the address is one, and no quotes stand
/// in it nor behind it.
pub open spec fn is_plain_link(
    before: Seq<char>,
    href: Seq<char>,
    label: Seq<char>,
    after: Seq<char>,
) -> bool {
    &&& !before.contains('<') && !label.contains('<') && !after.contains('<')
    &&& href.len() > 0 && !href.contains('<') && !href.contains('>')
    &&& !href.contains('"') && !label.contains('"') && !after.contains('"')
    &&& !href.contains('\'') && !label.contains('\'') && !after.contains('\'')
}

proof fn lemma_link_parts(
    before: Seq<char>,
    href: Seq<char>,
    label: Seq<char>,
    after: Seq<char>,
)
    requires
        is_plain_link(before, href, label, after),
    ensures
        ({
            let s = with_link(before, href, label, after);
            let m = before.len() as int;
            let n = m + 9 + href.len();
            let k = n + 2 + label.len();
            &&& s.len() == k + 4 + after.len()
            &&& text::position(s, '<') == m
            &&& text::position(s.skip(m + 9), '"') == href.len()
            &&& text::position(s.skip(n + 2), '<') == label.len()
            &&& s.take(m) == before
            &&& s.subrange(m + 9, n) == href
            &&& s.subrange(n + 2, k) == label
            &&& s.skip(k + 4) == after
        }),
{
    let s = with_link(before, href, label, after);
    let m = before.len() as int;
    let n = m + 9 + href.len();
    let k = n + 2 + label.len();
    assert(s.take(m) == before);
    assert(s.subrange(m + 9, n) == href);
    assert(s.subrange(n + 2, k) == label);
    assert(s.skip(k + 4) == after);
    assert forall|i: int| 0 <= i < m implies #[trigger] s[i] != '<' by {
        assert(s[i] == before[i]);
    }
    assert(s[m] == '<');
    text::lemma_position_unique(s, '<', m);
    let x = s.skip(m + 9);
    assert forall|i: int| 0 <= i < href.len() implies #[trigger] x[i] != '"' by {
        assert(x[i] == href[i]);
    }
    assert(x[href.len() as int] == '"');
    text::lemma_position_unique(x, '"', href.len() as int);
    let y = s.skip(n + 2);
    assert forall|i: int| 0 <= i < label.len() implies #[trigger] y[i] != '<' by {
        assert(y[i] == label[i]);
    }
    assert(y[label.len() as int] == '<');
    text::lemma_position_unique(y, '<', label.len() as int);
}

/// A text can be read as one with a plain link in one way only.
pub proof fn lemma_link_is_unique(
    a: Seq<char>,
    h: Seq<char>,
    l: Seq<char>,
    b: Seq<char>,
    w: Seq<char>,
    x: Seq<char>,
    y: Seq<char>,
    z: Seq<char>,
)
    requires
        is_plain_link(a, h, l, b),
        is_plain_link(w, x, y, z),
        with_link(a, h, l, b) == with_link(w, x, y, z),
    ensures
        a == w,
        h == x,
        l == y,
        b == z,
{
    lemma_link_parts(a, h, l, b);
    lemma_link_parts(w, x, y, z);
}

/// A plain link is an attribute's tag, and holds no start tag of a longer name.
pub proof fn lemma_link_tags(
    before: Seq<char>,
    href: Seq<char>,
    label: Seq<char>,
    after: Seq<char>,
    name: Seq<char>,
)
    requires
        is_plain_link(before, href, label, after),
        is_element_name(name),
        name[0] != 'a',
    ensures
        holds_no_start(with_link(before, href, label, after), name),
        holds_attribute(with_link(before, href, label, after)),
{
    let s = with_link(before, href, label, after);
    lemma_link_parts(before, href, label, after);
    let m = before.len() as int;
    let n = m + 9 + href.len();
    let k = n + 2 + label.len();
    assert('a' <= name[0] <= 'z');
    assert forall|i: int| 0 <= i < s.len() implies #[trigger] no_start_at(s, i, name) by {
        if s[i] == '<' {
            if i < m {
                assert(s[i] == before[i]);
            } else if m + 9 <= i < n {
                assert(s[i] == href[i - m - 9]);
            } else if n + 2 <= i < k {
                assert(s[i] == label[i - n - 2]);
            } else if i >= k + 4 {
                assert(s[i] == after[i - k - 4]);
            } else if i == m {
                assert(s[m + 1] == 'a');
                assert(differs(s, i + 1 + 0, name[0]));
            } else {
                assert(i == k);
                assert(s[k + 1] == '/');
                assert(differs(s, i + 1 + 0, name[0]));
            }
        }
    }
    assert(s[m] == '<' && s[m + 7] == '=');
    assert(!s.subrange(m, m + 7).contains('>')) by {
        assert(s.subrange(m, m + 7) == seq!['<', 'a', ' ', 'h', 'r', 'e', 'f']);
    }
}

} // verus!
