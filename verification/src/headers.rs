//! What the headers of a response say of it.

use crate::text;
use crate::utf8;
use vstd::prelude::*;
use vstd::slice::slice_subrange;
use vstd::utf8::*;

verus! {

/// What the headers of a response say.
pub ghost struct Headers {
    /// The status code.
    pub status: Option<u16>,
    /// The media type of the body.
    pub content_type: Option<Seq<char>>,
}

/// The first line of a response, such as `HTTP/1.1 200 OK`.
pub open spec fn is_status_line(line: Seq<char>) -> bool {
    line.len() >= "http/"@.len() && text::same_ignoring_ascii_case(
        line.take("http/"@.len() as int),
        "http/"@,
    )
}

/// The status code on the first line of a response: its second word, where that is a number.
pub open spec fn status_of(line: Seq<char>) -> Option<u16> {
    let words = text::words(line);
    if words.len() > 1 {
        text::as_u16(words[1])
    } else {
        None
    }
}

/// What a header line gives as the media type of the body, if it does.
pub open spec fn content_type_of(line: Seq<char>) -> Option<Seq<char>> {
    let colon = text::position(line, ':') as int;
    if colon < line.len() && text::same_ignoring_ascii_case(
        text::trim(line.take(colon)),
        "content-type"@,
    ) {
        Some(text::trim(line.skip(colon + 1)))
    } else {
        None
    }
}

/// What is known after one more line. The first line of a response begins anew.
pub open spec fn after_line(known: Headers, line: Seq<char>) -> Headers {
    if is_status_line(line) {
        Headers { status: status_of(line), content_type: None }
    } else if content_type_of(line) is Some {
        Headers { content_type: content_type_of(line), ..known }
    } else {
        known
    }
}

/// What a sequence of header lines says.
pub open spec fn after_lines(lines: Seq<Seq<char>>) -> Headers
    decreases lines.len(),
{
    if lines.len() == 0 {
        Headers { status: None, content_type: None }
    } else {
        after_line(after_lines(lines.drop_last()), lines.last())
    }
}

/// What the headers in a text say.
pub open spec fn headers_of(text: Seq<char>) -> Headers {
    after_lines(text::lines(text))
}

fn status_line(line: &[char]) -> (r: bool)
    ensures
        r == is_status_line(line@),
{
    let start = text::chars_of("http/");
    line.len() >= start.len() && text::eq_ignore_ascii_case(
        slice_subrange(line, 0, start.len()),
        start.as_slice(),
    )
}

fn status_on(line: &[char]) -> (r: Option<u16>)
    ensures
        r == status_of(line@),
{
    let words = text::split_words(line);
    if words.len() > 1 {
        assert(text::contents(words@)[1] == words@[1]@);
        text::parse_u16(words[1])
    } else {
        None
    }
}

fn content_type_on(line: &[char]) -> (r: Option<String>)
    ensures
        r.deep_view() == content_type_of(line@),
{
    let colon: usize = text::find(line, ':');
    if colon >= line.len() {
        return None;
    }
    let wanted = text::chars_of("content-type");
    let name = text::trimmed(slice_subrange(line, 0, colon));
    if text::eq_ignore_ascii_case(name, wanted.as_slice()) {
        let value = text::trimmed(slice_subrange(line, colon + 1, line.len()));
        Some(text::string_of(value))
    } else {
        None
    }
}

/// The status code and the media type that the headers in a text give. Where the text holds the
/// headers of several responses, those of the last one count.
pub fn parse_header_text(text: &str) -> (r: (Option<u16>, Option<String>))
    ensures
        r.0 == headers_of(text@).status,
        r.1.deep_view() == headers_of(text@).content_type,
{
    let chars = text::chars_of(text);
    let lines = text::split_lines(chars.as_slice());
    let mut status: Option<u16> = None;
    let mut content_type: Option<String> = None;
    for i in 0..lines.len()
        invariant
            status == after_lines(text::contents(lines@).take(i as int)).status,
            content_type.deep_view() == after_lines(
                text::contents(lines@).take(i as int),
            ).content_type,
    {
        let line = lines[i];
        let ghost seen = text::contents(lines@).take(i + 1);
        assert(seen.drop_last() == text::contents(lines@).take(i as int));
        assert(seen.last() == line@);
        if status_line(line) {
            status = status_on(line);
            content_type = None;
        } else {
            let value = content_type_on(line);
            if value.is_some() {
                content_type = value;
            }
        }
    }
    assert(text::contents(lines@).take(lines@.len() as int) == text::contents(lines@));
    (status, content_type)
}

/// The status code and the media type that the given headers give.
pub fn parse_response_headers(headers: &[u8]) -> (r: (Option<u16>, Option<String>))
    ensures
        r.0 == headers_of(utf8::lossy(headers@)).status,
        r.1.deep_view() == headers_of(utf8::lossy(headers@)).content_type,
        valid_utf8(headers@) ==> utf8::lossy(headers@) == decode_utf8(headers@),
{
    let text = utf8::lossy_text(headers);
    parse_header_text(text.as_str())
}

/// Whether a media type, its parameters aside, is that of an HTML page.
pub open spec fn is_html(content_type: Option<Seq<char>>) -> bool {
    match content_type {
        Some(value) => {
            let mime = text::trim(value.take(text::position(value, ';') as int));
            ||| text::same_ignoring_ascii_case(mime, "text/html"@)
            ||| text::same_ignoring_ascii_case(mime, "application/xhtml+xml"@)
        },
        None => false,
    }
}

/// Whether a media type, its parameters aside, is that of an HTML page.
pub fn is_html_content_type(content_type: Option<&str>) -> (r: bool)
    ensures
        r == is_html(content_type.deep_view()),
{
    match content_type {
        Some(value) => {
            let chars = text::chars_of(value);
            let end: usize = text::find(chars.as_slice(), ';');
            let mime = text::trimmed(slice_subrange(chars.as_slice(), 0, end));
            let html = text::chars_of("text/html");
            let xhtml = text::chars_of("application/xhtml+xml");
            text::eq_ignore_ascii_case(mime, html.as_slice()) || text::eq_ignore_ascii_case(
                mime,
                xhtml.as_slice(),
            )
        },
        None => false,
    }
}

// ---------------------------------------------------------------------------------------------
// What holds of all headers

proof fn lemma_last_response_wins(earlier: Seq<Seq<char>>, response: Seq<Seq<char>>)
    requires
        response.len() > 0,
        is_status_line(response[0]),
    ensures
        after_lines(earlier + response) == after_lines(response),
    decreases response.len(),
{
    let all = earlier + response;
    assert(all.drop_last() == earlier + response.drop_last());
    assert(all.last() == response.last());
    if response.len() == 1 {
        assert(response.last() == response[0]);
    } else {
        lemma_last_response_wins(earlier, response.drop_last());
    }
}

/// The headers of the last response count, and those of the responses before it, such as
/// redirects, do not: only what follows the last status line matters.
pub proof fn last_response_wins(earlier: Seq<char>, response: Seq<char>)
    requires
        earlier.len() > 0 ==> earlier.last() == '\n',
        text::lines(response).len() > 0,
        is_status_line(text::lines(response)[0]),
    ensures
        headers_of(earlier + response) == headers_of(response),
{
    text::lemma_lines_concat(earlier, response);
    lemma_last_response_wins(text::lines(earlier), text::lines(response));
}

/// The parameters of a media type do not matter.
pub proof fn parameters_do_not_matter(mime: Seq<char>, parameters: Seq<char>)
    ensures
        is_html(Some(mime + seq![';'] + parameters)) == is_html(Some(mime)),
{
    let value = mime + seq![';'] + parameters;
    text::lemma_position(mime, ';');
    let n = text::position(mime, ';') as int;
    assert forall|i: int| 0 <= i < n implies #[trigger] value[i] != ';' by {
        assert(value[i] == mime[i]);
    }
    text::lemma_position_unique(value, ';', n);
    assert(value.take(n) == mime.take(n));
}

/// The case of ASCII letters in a media type does not matter.
pub proof fn case_does_not_matter(a: Seq<char>, b: Seq<char>)
    requires
        text::same_ignoring_ascii_case(a, b),
    ensures
        is_html(Some(a)) == is_html(Some(b)),
{
    text::lemma_position(a, ';');
    let n = text::position(a, ';') as int;
    assert forall|i: int| 0 <= i < n implies #[trigger] b[i] != ';' by {
        assert(a[i] != ';');
        assert(text::ascii_lower(a[i]) == text::ascii_lower(b[i]));
    }
    if n < a.len() {
        assert(text::ascii_lower(a[n]) == text::ascii_lower(b[n]));
    }
    text::lemma_position_unique(b, ';', n);
    text::lemma_trim_ignores_case(a.take(n), b.take(n));
    let x = text::trim(a.take(n));
    let y = text::trim(b.take(n));
    text::lemma_same_is_transitive(x, y, "text/html"@);
    text::lemma_same_is_transitive(y, x, "text/html"@);
    text::lemma_same_is_transitive(x, y, "application/xhtml+xml"@);
    text::lemma_same_is_transitive(y, x, "application/xhtml+xml"@);
}

/// A line that ends in `\n` or `\r\n`, behind lines that have ended.
proof fn lemma_one_more_line(text: Seq<char>, line: Seq<char>, end: Seq<char>)
    requires
        text.len() > 0 ==> text.last() == '\n',
        !line.contains('\n'),
        line.len() > 0 ==> line.last() != '\r',
        end == seq!['\n'] || end == seq!['\r', '\n'],
    ensures
        text::lines(text + line + end) == text::lines(text).push(line),
        line.len() > 0 ==> text::lines(text + line) == text::lines(text).push(line),
{
    let ended = line + end;
    let n = ended.len() - 1;
    assert forall|i: int| 0 <= i < n implies #[trigger] ended[i] != '\n' by {
        if i < line.len() {
            assert(ended[i] == line[i]);
        }
    }
    assert(ended[n] == '\n');
    text::lemma_position_unique(ended, '\n', n);
    assert(ended.skip(n + 1) == Seq::<char>::empty());
    assert(text::without_cr(ended.take(n)) == line) by {
        if end.len() == 1 {
            assert(ended.take(n) == line);
        } else {
            assert(ended.take(n) == line.push('\r'));
            assert(line.push('\r').drop_last() == line);
        }
    }
    assert(text::lines(ended.skip(n + 1)) == Seq::<Seq<char>>::empty());
    assert(text::lines(ended) == seq![line]);
    text::lemma_lines_concat(text, ended);
    assert(text + line + end == text + ended);
    assert(text::lines(text) + seq![line] == text::lines(text).push(line));
    if line.len() > 0 {
        assert forall|i: int| 0 <= i < line.len() implies #[trigger] line[i] != '\n' by {}
        text::lemma_position_unique(line, '\n', line.len() as int);
        assert(text::lines(line) == seq![line]);
        text::lemma_lines_concat(text, line);
    }
}

/// A header line that is neither a status line nor a `Content-Type` line changes nothing, wherever
/// it stands.
pub proof fn other_headers_change_nothing(text: Seq<char>, line: Seq<char>, end: Seq<char>)
    requires
        text.len() > 0 ==> text.last() == '\n',
        !line.contains('\n'),
        line.len() > 0 ==> line.last() != '\r',
        end == seq!['\n'] || end == seq!['\r', '\n'],
        !(line.len() >= 5 && text::same_ignoring_ascii_case(line.take(5), "http/"@)),
        !line.contains(':') || !text::same_ignoring_ascii_case(
            text::trim(line.take(text::position(line, ':') as int)),
            "content-type"@,
        ),
    ensures
        headers_of(text + line + end) == headers_of(text),
        headers_of(text + line) == headers_of(text),
{
    reveal_strlit("http/");
    lemma_one_more_line(text, line, end);
    text::lemma_position(line, ':');
    assert(text::lines(text).push(line).drop_last() == text::lines(text));
    if line.len() == 0 {
        assert(text + line == text);
    }
    if text::position(line, ':') < line.len() {
        assert(line.contains(':'));
    }
    assert(after_line(headers_of(text), line) == headers_of(text));
}

/// A `Content-Type` line gives the media type of the body, without the white space around it, and
/// leaves the status as it is. Neither the case of the name nor what was given before matters.
pub proof fn content_type_is_read(
    text: Seq<char>,
    name: Seq<char>,
    value: Seq<char>,
    end: Seq<char>,
)
    requires
        text.len() > 0 ==> text.last() == '\n',
        !name.contains('\n') && !value.contains('\n'),
        !name.contains(':'),
        value.len() > 0 ==> value.last() != '\r',
        end == seq!['\n'] || end == seq!['\r', '\n'],
        !(name.len() >= 5 && text::same_ignoring_ascii_case(name.take(5), "http/"@)),
        text::same_ignoring_ascii_case(text::trim(name), "content-type"@),
    ensures
        headers_of(text + (name + seq![':'] + value) + end).content_type == Some(text::trim(value)),
        headers_of(text + (name + seq![':'] + value) + end).status == headers_of(text).status,
        headers_of(text + (name + seq![':'] + value)) == headers_of(
            text + (name + seq![':'] + value) + end,
        ),
{
    let line = name + seq![':'] + value;
    let n = name.len() as int;
    reveal_strlit("http/");
    reveal_strlit("content-type");
    assert forall|i: int| 0 <= i < line.len() implies line[i] != '\n' by {
        if i < n {
            assert(line[i] == name[i]);
        } else if i > n {
            assert(line[i] == value[i - n - 1]);
        }
    }
    assert(line.last() != '\r') by {
        if value.len() > 0 {
            assert(line.last() == value.last());
        }
    }
    lemma_one_more_line(text, line, end);
    assert forall|i: int| 0 <= i < n implies #[trigger] line[i] != ':' by {
        assert(line[i] == name[i]);
    }
    text::lemma_position_unique(line, ':', n);
    assert(line.take(n) == name);
    assert(line.skip(n + 1) == value);
    text::lemma_trim_part(name);
    assert(name.len() >= 12);
    assert(line.take(5) == name.take(5));
    assert(text::lines(text).push(line).drop_last() == text::lines(text));
}

/// A status line begins a response: it gives the status, where its second word is a number, and
/// what was known before is forgotten.
pub proof fn status_lines_begin_anew(text: Seq<char>, line: Seq<char>, end: Seq<char>)
    requires
        text.len() > 0 ==> text.last() == '\n',
        !line.contains('\n'),
        line.len() >= 5,
        line.last() != '\r',
        end == seq!['\n'] || end == seq!['\r', '\n'],
        text::same_ignoring_ascii_case(line.take(5), "http/"@),
    ensures
        headers_of(text + line + end).content_type is None,
        headers_of(text + line + end).status == (if text::words(line).len() >= 2 {
            text::as_u16(text::words(line)[1])
        } else {
            None
        }),
        headers_of(text + line) == headers_of(text + line + end),
{
    reveal_strlit("http/");
    lemma_one_more_line(text, line, end);
    assert(text::lines(text).push(line).drop_last() == text::lines(text));
}

/// Where there are no headers, nothing is known.
pub proof fn no_headers_say_nothing()
    ensures
        headers_of(Seq::empty()).status is None,
        headers_of(Seq::empty()).content_type is None,
{
}

/// The white space around a media type does not matter.
pub proof fn surrounding_blanks_do_not_matter(
    before: Seq<char>,
    mime: Seq<char>,
    after: Seq<char>,
)
    requires
        forall|i: int| 0 <= i < before.len() ==> text::is_whitespace(#[trigger] before[i]),
        forall|i: int| 0 <= i < after.len() ==> text::is_whitespace(#[trigger] after[i]),
        !mime.contains(';'),
    ensures
        is_html(Some(before + mime + after)) == is_html(Some(mime)),
{
    let value = before + mime + after;
    assert forall|i: int| 0 <= i < value.len() implies #[trigger] value[i] != ';' by {
        if i < before.len() {
            assert(value[i] == before[i]);
        } else if i < before.len() + mime.len() {
            assert(value[i] == mime[i - before.len()]);
        } else {
            assert(value[i] == after[i - before.len() - mime.len()]);
        }
    }
    text::lemma_position_unique(value, ';', value.len() as int);
    text::lemma_position_unique(mime, ';', mime.len() as int);
    assert(value.take(value.len() as int) == value);
    assert(mime.take(mime.len() as int) == mime);
    text::lemma_trim_around(before, mime, after);
}

/// Two media types are those of an HTML page, and no other one is: `text/html` and
/// `application/xhtml+xml`.
pub proof fn two_types_are_html(mime: Seq<char>)
    requires
        !mime.contains(';'),
        mime.len() > 0 ==> !text::is_whitespace(mime[0]) && !text::is_whitespace(mime.last()),
        forall|i: int| 0 <= i < mime.len() ==> !('A' <= #[trigger] mime[i] <= 'Z'),
    ensures
        is_html(Some(mime)) <==> mime == "text/html"@ || mime == "application/xhtml+xml"@,
        !is_html(None),
{
    text::lemma_position_unique(mime, ';', mime.len() as int);
    assert(mime.take(mime.len() as int) == mime);
    text::lemma_trim_around(Seq::empty(), mime, Seq::empty());
    assert(Seq::<char>::empty() + mime + Seq::<char>::empty() == mime);
    text::lemma_trim_of_tight(mime);
    reveal_strlit("text/html");
    reveal_strlit("application/xhtml+xml");
    lemma_same_lowercase(mime, "text/html"@);
    lemma_same_lowercase(mime, "application/xhtml+xml"@);
}

proof fn lemma_same_lowercase(a: Seq<char>, b: Seq<char>)
    requires
        forall|i: int| 0 <= i < a.len() ==> !('A' <= #[trigger] a[i] <= 'Z'),
        forall|i: int| 0 <= i < b.len() ==> !('A' <= #[trigger] b[i] <= 'Z'),
    ensures
        text::same_ignoring_ascii_case(a, b) <==> a == b,
{
    if text::same_ignoring_ascii_case(a, b) {
        assert forall|i: int| 0 <= i < a.len() implies a[i] == b[i] by {
            assert(text::ascii_lower(a[i]) == text::ascii_lower(b[i]));
        }
        assert(a =~= b);
    }
}

} // verus!
