//! Readable, bounded text out of an HTML page.

use crate::markup;
use crate::pattern;
use crate::text;
use crate::utf8;
use vstd::prelude::*;
use vstd::utf8::*;

verus! {

/// The greatest size, in bytes, of the text that stands for an HTML page.
pub const MCP_HTML_PREVIEW_LIMIT: usize = 32 * 1024;

/// A link: its address, up to the closing quote, and what stands between the tags.
pub const ANCHOR_PATTERN: &'static str =
    "<a\\b[^>]*\\bhref\\s*=\\s*[\"']([^\"']+)[\"'][^>]*>(.*?)</a\\s*>";

/// The start of a list item.
pub const LIST_ITEM_PATTERN: &'static str = "<li\\b[^>]*>";

/// The start or the end of an element that stands on lines of its own.
pub const BLOCK_PATTERN: &'static str =
    "</?(?:address|article|aside|blockquote|br|dd|div|dl|dt|fieldset|figcaption|figure|footer|form|h[1-6]|header|hr|main|nav|ol|p|section|table|tbody|td|tfoot|th|thead|tr|ul)\\b[^>]*>";

// ---------------------------------------------------------------------------------------------
// Normalized text

/// A text with the character references that stand for single characters resolved, one kind
/// after the other.
pub open spec fn decoded(s: Seq<char>) -> Seq<char> {
    let s = text::replaced(s, "&nbsp;"@, " "@);
    let s = text::replaced(s, "&amp;"@, "&"@);
    let s = text::replaced(s, "&lt;"@, "<"@);
    let s = text::replaced(s, "&gt;"@, ">"@);
    let s = text::replaced(s, "&quot;"@, "\""@);
    text::replaced(s, "&#39;"@, "'"@)
}

/// Each line with one space between its words, and without the lines that hold no word.
pub open spec fn worded_lines(lines: Seq<Seq<char>>) -> Seq<Seq<char>>
    decreases lines.len(),
{
    if lines.len() == 0 {
        Seq::empty()
    } else {
        let before = worded_lines(lines.drop_last());
        let line = text::join(text::words(lines.last()), " "@);
        if line.len() == 0 {
            before
        } else {
            before.push(line)
        }
    }
}

/// Text out of HTML, with its character references resolved and its white space evened out.
pub open spec fn normalized(s: Seq<char>) -> Seq<char> {
    text::join(worded_lines(text::lines(decoded(s))), "\n"@)
}

fn decode(text: &[char]) -> (r: Vec<char>)
    ensures
        r@ == decoded(text@),
{
    proof {
        reveal_strlit("&nbsp;");
        reveal_strlit("&amp;");
        reveal_strlit("&lt;");
        reveal_strlit("&gt;");
        reveal_strlit("&quot;");
        reveal_strlit("&#39;");
    }
    let text = text::replace(text, "&nbsp;", " ");
    let text = text::replace(text.as_slice(), "&amp;", "&");
    let text = text::replace(text.as_slice(), "&lt;", "<");
    let text = text::replace(text.as_slice(), "&gt;", ">");
    let text = text::replace(text.as_slice(), "&quot;", "\"");
    text::replace(text.as_slice(), "&#39;", "'")
}

/// Text out of HTML, with its character references resolved and its white space evened out.
pub fn normalize_html_text(text: &str) -> (r: String)
    ensures
        r@ == normalized(text@),
{
    let chars = text::chars_of(text);
    let chars = decode(chars.as_slice());
    let lines = text::split_lines(chars.as_slice());
    let space = text::chars_of(" ");
    let mut out = String::new();
    let mut any = false;
    for i in 0..lines.len()
        invariant
            space@ == " "@,
            ({
                let done = worded_lines(text::contents(lines@).take(i as int));
                &&& out@ == text::join(done, "\n"@)
                &&& any == (done.len() > 0)
            }),
    {
        let ghost all = text::contents(lines@);
        let ghost done = worded_lines(all.take(i as int));
        assert(all.take(i + 1).drop_last() == all.take(i as int));
        let words = text::split_words(lines[i]);
        let line = text::joined(&words, space.as_slice());
        if line.len() > 0 {
            if any {
                out.append("\n");
            }
            text::push_chars(&mut out, line.as_slice());
            any = true;
            assert(done.push(line@).drop_last() == done);
        }
    }
    assert(text::contents(lines@).take(lines@.len() as int) == text::contents(lines@));
    out
}

// ---------------------------------------------------------------------------------------------
// From markup to text

/// A fragment of HTML without its tags.
pub open spec fn stripped(fragment: Seq<char>) -> Seq<char> {
    markup::without_tags(fragment)
}

/// A fragment of HTML without its tags.
pub fn strip_html_fragment(fragment: &str) -> (r: String)
    ensures
        r@ == stripped(fragment@),
{
    proof {
        reveal_strlit("");
    }
    pattern::replace_matches(markup::TAG_PATTERN, true, false, fragment.to_string(), "")
}

/// What stands for a link with the given label and address.
pub open spec fn link(label: Seq<char>, href: Seq<char>) -> Seq<char> {
    let label_text = text::trim(label);
    let address = text::trim(href);
    if label_text.len() == 0 {
        "["@ + address + "]"@
    } else if address.len() == 0 {
        label
    } else {
        label_text + " ["@ + address + "]"@
    }
}

/// What stands for a link with the given label and address: both, or the one that is there.
pub fn link_text(label: &str, href: &str) -> (r: String)
    ensures
        r@ == link(label@, href@),
{
    let label_chars = text::chars_of(label);
    let label_text = text::trimmed(label_chars.as_slice());
    let href_chars = text::chars_of(href);
    let address = text::trimmed(href_chars.as_slice());
    if label_text.len() > 0 && address.len() == 0 {
        return label.to_string();
    }
    let mut out = text::string_of(label_text);
    if label_text.len() == 0 {
        out.append("[");
    } else {
        out.append(" [");
    }
    text::push_chars(&mut out, address);
    out.append("]");
    assert(label_text@.len() == 0 ==> label_text@ + "["@ == "["@);
    out
}

/// What stands for an anchor element with the given address and content.
pub fn anchor_text(href: &str, content: &str) -> (r: String)
    ensures
        r@ == link(stripped(content@), href@),
{
    let label = strip_html_fragment(content);
    link_text(label.as_str(), href)
}

/// What stands for each of the given matches of an anchor element.
pub open spec fn anchor_texts(matches: Seq<pattern::Match>) -> Seq<Seq<char>> {
    Seq::new(
        matches.len(),
        |i: int|
            link(stripped(pattern::group_text(matches[i], 2)), pattern::group_text(matches[i], 1)),
    )
}

/// `regex::Regex::replace_all` with [`anchor_text`] of the first and the second capture group as
/// the replacement: every match becomes what `anchor_text` makes of its two groups, a group that
/// took no part counting as empty, and the rest of the text stays. `None` is returned for a
/// pattern that `regex::RegexBuilder::build` refuses. The pattern for links builds; it finds nothing
/// where no tag has an attribute, and in a text with one plain link it finds that link, its address
/// and its label.
#[verifier::external_body]
fn regex_replace_anchors(
    pattern: &str,
    case_insensitive: bool,
    dot_matches_new_line: bool,
    text: &str,
) -> (r: Option<String>)
    ensures
        r is None <==> pattern::pattern_error(pattern@, case_insensitive, dot_matches_new_line)
            is Some,
        r matches Some(t) ==> t@ == pattern::spliced(
            text@,
            0,
            pattern::regex_matches(pattern@, case_insensitive, dot_matches_new_line, text@),
            anchor_texts(
                pattern::regex_matches(pattern@, case_insensitive, dot_matches_new_line, text@),
            ),
        ),
        pattern@ == "<a\\b[^>]*\\bhref\\s*=\\s*[\"']([^\"']+)[\"'][^>]*>(.*?)</a\\s*>"@
            && !markup::holds_attribute(text@) ==> r.deep_view() == Some(text@),
        (forall|before: Seq<char>, href: Seq<char>, label: Seq<char>, after: Seq<char>|
            pattern@ == "<a\\b[^>]*\\bhref\\s*=\\s*[\"']([^\"']+)[\"'][^>]*>(.*?)</a\\s*>"@
                && case_insensitive && dot_matches_new_line && text@ == #[trigger] markup::with_link(
                before,
                href,
                label,
                after,
            ) && markup::is_plain_link(before, href, label, after) ==> r.deep_view() == Some(
                before + link(stripped(label), href) + after,
            )),
{
    let regex = regex::RegexBuilder::new(pattern)
        .case_insensitive(case_insensitive)
        .dot_matches_new_line(dot_matches_new_line)
        .build()
        .ok()?;
    let replaced = regex.replace_all(text, |c: &regex::Captures<'_>| {
        anchor_text(c.get(1).map_or("", |m| m.as_str()), c.get(2).map_or("", |m| m.as_str()))
    });
    Some(replaced.into_owned())
}

/// What a text with one plain link in it becomes when the link is written out.
pub open spec fn lone_link_written_out(html: Seq<char>) -> Option<Seq<char>> {
    if exists|a: Seq<char>, h: Seq<char>, l: Seq<char>, b: Seq<char>|
        html == #[trigger] markup::with_link(a, h, l, b) && markup::is_plain_link(a, h, l, b) {
        let (a, h, l, b) = choose|a: Seq<char>, h: Seq<char>, l: Seq<char>, b: Seq<char>|
            html == #[trigger] markup::with_link(a, h, l, b) && markup::is_plain_link(a, h, l, b);
        Some(a + link(stripped(l), h) + b)
    } else {
        None
    }
}

/// A page with every link written out as its label and its address.
pub open spec fn linked(html: Seq<char>) -> Seq<char> {
    if !markup::holds_attribute(html) {
        html
    } else if lone_link_written_out(html) is Some {
        lone_link_written_out(html)->0
    } else if pattern::pattern_error(ANCHOR_PATTERN@, true, true) is Some {
        html
    } else {
        let matches = pattern::regex_matches(ANCHOR_PATTERN@, true, true, html);
        pattern::spliced(html, 0, matches, anchor_texts(matches))
    }
}

fn write_out_links(html: String) -> (r: String)
    ensures
        r@ == linked(html@),
{
    match regex_replace_anchors(ANCHOR_PATTERN, true, true, html.as_str()) {
        Some(replaced) => replaced,
        None => html,
    }
}

/// A page without the elements of one kind, their content included. A page without a start tag of
/// that kind stays as it is, and of a page with one such element what stands around it is left.
pub open spec fn without_element(html: Seq<char>, tag: Seq<char>) -> Seq<char> {
    if markup::holds_no_start(html, tag) {
        html
    } else {
        match markup::without_lone_element(html, tag) {
            Some(rest) => rest,
            None => pattern::regex_replaced(markup::element_pattern(tag), true, true, html, ""@),
        }
    }
}

fn remove_element(html: String, tag: &str) -> (r: String)
    requires
        markup::is_element_name(tag@),
    ensures
        r@ == without_element(html@, tag@),
{
    proof {
        reveal_strlit("");
    }
    let mut element = String::new();
    element.append("<");
    element.append(tag);
    element.append("\\b[^>]*>.*?</");
    element.append(tag);
    element.append("\\s*>");
    assert(element@ == markup::element_pattern(tag@));
    let ghost page = html@;
    let r = pattern::replace_matches(element.as_str(), true, true, html, "");
    proof {
        if markup::without_lone_element(page, tag@) is Some {
            let (a, t, c, b) = choose|a: Seq<char>, t: Seq<char>, c: Seq<char>, b: Seq<char>|
                page == #[trigger] markup::with_element(a, t, c, b) && markup::is_framed(
                    a,
                    t,
                    c,
                    b,
                    tag@,
                );
            assert(a + ""@ + b == a + b);
        }
    }
    r
}

/// A page without the elements that hold no readable text.
pub open spec fn without_hidden_elements(html: Seq<char>) -> Seq<char> {
    let html = without_element(html, "script"@);
    let html = without_element(html, "style"@);
    let html = without_element(html, "noscript"@);
    let html = without_element(html, "template"@);
    let html = without_element(html, "svg"@);
    without_element(html, "head"@)
}

/// A page in which list items begin lines of their own, with a dash.
pub open spec fn with_list_items(html: Seq<char>) -> Seq<char> {
    if markup::holds_simple_tags(html) {
        markup::tags_replaced(markup::TagKind::ListItem, html, "\n- "@)
    } else {
        pattern::regex_replaced(LIST_ITEM_PATTERN@, true, false, html, "\n- "@)
    }
}

/// A page in which blocks stand on lines of their own.
pub open spec fn with_blocks(html: Seq<char>) -> Seq<char> {
    if markup::holds_simple_tags(html) {
        markup::tags_replaced(markup::TagKind::Block, html, "\n"@)
    } else {
        pattern::regex_replaced(BLOCK_PATTERN@, true, false, html, "\n"@)
    }
}

/// What remains of a page when scripts and the like are gone, links are written out, list items
/// and blocks begin lines of their own, and the remaining tags are gone.
pub open spec fn unmarked(html: Seq<char>) -> Seq<char> {
    stripped(with_blocks(with_list_items(linked(without_hidden_elements(html)))))
}

proof fn lemma_hidden_names()
    ensures
        markup::is_element_name("script"@),
        markup::is_element_name("style"@),
        markup::is_element_name("noscript"@),
        markup::is_element_name("template"@),
        markup::is_element_name("svg"@),
        markup::is_element_name("head"@),
{
    reveal_strlit("script");
    reveal_strlit("style");
    reveal_strlit("noscript");
    reveal_strlit("template");
    reveal_strlit("svg");
    reveal_strlit("head");
}

fn unmark(html: &str) -> (r: String)
    ensures
        r@ == unmarked(html@),
{
    proof {
        reveal_strlit("");
        reveal_strlit("\n- ");
        reveal_strlit("\n");
        lemma_hidden_names();
    }
    let html = remove_element(html.to_string(), "script");
    let html = remove_element(html, "style");
    let html = remove_element(html, "noscript");
    let html = remove_element(html, "template");
    let html = remove_element(html, "svg");
    let html = remove_element(html, "head");
    let html = write_out_links(html);
    let html = pattern::replace_matches(LIST_ITEM_PATTERN, true, false, html, "\n- ");
    let html = pattern::replace_matches(BLOCK_PATTERN, true, false, html, "\n");
    pattern::replace_matches(markup::TAG_PATTERN, true, false, html, "")
}

/// The title of a page; empty where it has none.
pub open spec fn title(html: Seq<char>) -> Seq<char> {
    if markup::holds_no_start(html, "title"@) {
        Seq::empty()
    } else if markup::first_content(html, "title"@) is Some {
        normalized(stripped(markup::first_content(html, "title"@)->0))
    } else {
        match pattern::first_group(markup::TITLE_PATTERN@, true, true, html, 1) {
            Some(content) => normalized(stripped(content)),
            None => Seq::empty(),
        }
    }
}

/// The title of a page; empty where it has none.
pub fn extract_html_title(html: &str) -> (r: String)
    ensures
        r@ == title(html@),
{
    match pattern::regex_first_group(markup::TITLE_PATTERN, true, true, html, 1) {
        Some(content) => {
            let content = strip_html_fragment(content.as_str());
            normalize_html_text(content.as_str())
        },
        None => String::new(),
    }
}

// ---------------------------------------------------------------------------------------------
// The summary of a page

/// A line with a label before it; nothing where there is no value, or an empty one.
pub open spec fn labelled(label: Seq<char>, value: Option<Seq<char>>) -> Seq<char> {
    match value {
        Some(value) => if value.len() > 0 {
            label + value + "\n"@
        } else {
            Seq::empty()
        },
        None => Seq::empty(),
    }
}

/// A line with the status of the response, if it is known.
pub open spec fn status_line(http_status: Option<u16>) -> Seq<char> {
    match http_status {
        Some(status) => "HTTP status: "@ + text::decimal(status as nat) + "\n"@,
        None => Seq::empty(),
    }
}

/// What is known of a response, followed by the readable text of its page.
pub open spec fn summary(
    title: Seq<char>,
    body: Seq<char>,
    url: Option<Seq<char>>,
    http_status: Option<u16>,
    content_type: Option<Seq<char>>,
    original_bytes: nat,
) -> Seq<char> {
    "HTML page summary\n"@ + labelled("URL: "@, url) + status_line(http_status) + labelled(
        "Content-Type: "@,
        content_type,
    ) + labelled("Title: "@, Some(title)) + "Original response: "@ + text::decimal(original_bytes)
        + " bytes\n\n"@ + (if body.len() == 0 {
        "(The HTML response contained no readable text.)"@
    } else {
        body
    })
}

fn push_labelled(out: &mut String, label: &str, value: Option<&str>)
    ensures
        final(out)@ == old(out)@ + labelled(label@, value.deep_view()),
{
    let ghost before = out@;
    match value {
        Some(value) => {
            if !value.is_empty() {
                out.append(label);
                out.append(value);
                out.append("\n");
                assert(out@ == before + labelled(label@, Some(value@)));
            } else {
                assert(out@ == before + labelled(label@, Some(value@)));
            }
        },
        None => {
            assert(out@ == before + labelled(label@, None));
        },
    }
}

/// What is known of a response, followed by the readable text of its page.
pub fn page_summary(
    title: &str,
    body: &str,
    url: Option<&str>,
    http_status: Option<u16>,
    content_type: Option<&str>,
    original_bytes: usize,
) -> (r: String)
    ensures
        r@ == summary(
            title@,
            body@,
            url.deep_view(),
            http_status,
            content_type.deep_view(),
            original_bytes as nat,
        ),
{
    let mut out = "HTML page summary\n".to_string();
    push_labelled(&mut out, "URL: ", url);
    let ghost before = out@;
    match http_status {
        Some(status) => {
            out.append("HTTP status: ");
            text::push_decimal(&mut out, status as u64);
            out.append("\n");
        },
        None => {},
    }
    assert(out@ == before + status_line(http_status));
    push_labelled(&mut out, "Content-Type: ", content_type);
    push_labelled(&mut out, "Title: ", Some(title));
    out.append("Original response: ");
    text::push_decimal(&mut out, original_bytes as u64);
    out.append(" bytes\n\n");
    if body.is_empty() {
        out.append("(The HTML response contained no readable text.)");
    } else {
        out.append(body);
    }
    out
}

// ---------------------------------------------------------------------------------------------
// The bound on a preview

/// What a preview ends in when text was left out.
pub open spec fn truncation_notice() -> Seq<char> {
    "\n\n[HTML preview truncated at "@ + text::decimal(MCP_HTML_PREVIEW_LIMIT as nat)
        + " bytes; use browser_curl with -o <path> to retrieve the full response.]"@
}

fn notice() -> (r: String)
    ensures
        r@ == truncation_notice(),
{
    let mut out = "\n\n[HTML preview truncated at ".to_string();
    text::push_decimal(&mut out, MCP_HTML_PREVIEW_LIMIT as u64);
    out.append(" bytes; use browser_curl with -o <path> to retrieve the full response.]");
    out
}

/// How many bytes of a summary that is too long are kept before the notice.
pub open spec fn kept_bytes() -> nat {
    if encode_utf8(truncation_notice()).len() <= MCP_HTML_PREVIEW_LIMIT {
        (MCP_HTML_PREVIEW_LIMIT - encode_utf8(truncation_notice()).len()) as nat
    } else {
        0
    }
}

/// Whether a summary is too long to be shown whole.
pub open spec fn overlong(summary: Seq<char>) -> bool {
    encode_utf8(summary).len() > MCP_HTML_PREVIEW_LIMIT
}

/// A summary as it is shown: whole if it is short enough, else its beginning and a notice.
pub open spec fn preview(summary: Seq<char>) -> Seq<char> {
    if overlong(summary) {
        text::trim_end(utf8::fitting_prefix(summary, kept_bytes())) + truncation_notice()
    } else {
        summary
    }
}

/// A summary as it is shown, and whether text was left out of it.
pub fn bounded_preview(summary: String) -> (r: (String, bool))
    ensures
        r.0@ == preview(summary@),
        r.1 == overlong(summary@),
{
    if utf8::byte_len(summary.as_str()) <= MCP_HTML_PREVIEW_LIMIT {
        return (summary, false);
    }
    let notice = notice();
    let budget: usize = MCP_HTML_PREVIEW_LIMIT.saturating_sub(utf8::byte_len(notice.as_str()));
    let kept = text::chars_of(utf8::prefix_within(summary.as_str(), budget));
    let mut bounded = text::string_of(text::trimmed_end(kept.as_slice()));
    bounded.append(notice.as_str());
    (bounded, true)
}

/// The summary of a page.
pub open spec fn html_summary(
    html: Seq<char>,
    url: Option<Seq<char>>,
    http_status: Option<u16>,
    content_type: Option<Seq<char>>,
    original_bytes: nat,
) -> Seq<char> {
    summary(
        title(html),
        normalized(unmarked(html)),
        url,
        http_status,
        content_type,
        original_bytes,
    )
}

/// Readable text for an HTML page, and whether text was left out of it.
pub fn html_preview(
    html: &str,
    url: Option<&str>,
    http_status: Option<u16>,
    content_type: Option<&str>,
    original_bytes: usize,
) -> (r: (String, bool))
    ensures
        ({
            let whole = html_summary(
                html@,
                url.deep_view(),
                http_status,
                content_type.deep_view(),
                original_bytes as nat,
            );
            &&& r.0@ == preview(whole)
            &&& r.1 == overlong(whole)
        }),
{
    let title = extract_html_title(html);
    let body = unmark(html);
    let body = normalize_html_text(body.as_str());
    let whole = page_summary(
        title.as_str(),
        body.as_str(),
        url,
        http_status,
        content_type,
        original_bytes,
    );
    bounded_preview(whole)
}

// ---------------------------------------------------------------------------------------------
// What holds of every page

/// A text whose white space is single spaces and single line ends between other characters.
pub open spec fn tidy(s: Seq<char>) -> bool {
    forall|i: int|
        0 <= i < s.len() && text::is_whitespace(#[trigger] s[i]) ==> {
            &&& s[i] == ' ' || s[i] == '\n'
            &&& 0 < i < s.len() - 1
            &&& !text::is_whitespace(s[i - 1])
            &&& !text::is_whitespace(s[i + 1])
        }
}

proof fn lemma_join_tidy(parts: Seq<Seq<char>>, separator: Seq<char>)
    requires
        separator == seq![' '] || separator == seq!['\n'],
        forall|i: int| 0 <= i < parts.len() ==> (#[trigger] parts[i]).len() > 0,
        forall|i: int| 0 <= i < parts.len() ==> tidy(#[trigger] parts[i]),
    ensures
        tidy(text::join(parts, separator)),
        parts.len() > 0 ==> text::join(parts, separator).len() > 0,
    decreases parts.len(),
{
    if parts.len() > 1 {
        let front = text::join(parts.drop_last(), separator);
        let whole = text::join(parts, separator);
        let last = parts.last();
        lemma_join_tidy(parts.drop_last(), separator);
        assert(whole == front + separator + last);
        assert forall|i: int| 0 <= i < whole.len() && text::is_whitespace(#[trigger] whole[i])
            implies {
            &&& whole[i] == ' ' || whole[i] == '\n'
            &&& 0 < i < whole.len() - 1
            &&& !text::is_whitespace(whole[i - 1])
            &&& !text::is_whitespace(whole[i + 1])
        } by {
            let n = front.len() as int;
            if i < n {
                assert(whole[i] == front[i]);
                assert(whole[i - 1] == front[i - 1]);
                assert(whole[i + 1] == front[i + 1]);
            } else if i == n {
                assert(whole[i - 1] == front[n - 1]);
                assert(whole[i + 1] == last[0]);
                assert(!text::is_whitespace(front[n - 1]));
                assert(!text::is_whitespace(last[0]));
            } else {
                assert(whole[i] == last[i - n - 1]);
                assert(whole[i - 1] == last[i - n - 2]);
                assert(whole[i + 1] == last[i - n]);
            }
        }
    } else if parts.len() == 1 {
        assert(parts[0].len() > 0);
    }
}

proof fn lemma_worded_lines_tidy(lines: Seq<Seq<char>>)
    ensures
        forall|i: int|
            0 <= i < worded_lines(lines).len() ==> (#[trigger] worded_lines(lines)[i]).len() > 0,
        forall|i: int|
            0 <= i < worded_lines(lines).len() ==> tidy(#[trigger] worded_lines(lines)[i]),
    decreases lines.len(),
{
    if lines.len() > 0 {
        lemma_worded_lines_tidy(lines.drop_last());
        reveal_strlit(" ");
        assert(" "@ == seq![' ']);
        let words = text::words(lines.last());
        text::lemma_words(lines.last());
        assert forall|i: int| 0 <= i < words.len() implies tidy(#[trigger] words[i]) by {
            assert forall|j: int| 0 <= j < words[i].len() implies !text::is_whitespace(
                #[trigger] words[i][j],
            ) by {}
        }
        lemma_join_tidy(words, " "@);
        let before = worded_lines(lines.drop_last());
        let all = worded_lines(lines);
        assert forall|i: int| 0 <= i < all.len() implies (#[trigger] all[i]).len() > 0 && tidy(
            all[i],
        ) by {
            if i < before.len() {
                assert(all[i] == before[i]);
            }
        }
    }
}

/// Normalized text neither begins nor ends in white space, and holds none but single spaces and
/// single line ends: no line of it is empty, and no two spaces follow each other.
pub proof fn normalized_text_is_tidy(s: Seq<char>)
    ensures
        tidy(normalized(s)),
{
    let lines = text::lines(decoded(s));
    lemma_worded_lines_tidy(lines);
    reveal_strlit("\n");
    assert("\n"@ == seq!['\n']);
    lemma_join_tidy(worded_lines(lines), "\n"@);
}

proof fn lemma_decoded_around(a: Seq<char>, b: Seq<char>)
    ensures
        decoded(a + seq!['\n'] + b) == decoded(a) + seq!['\n'] + decoded(b),
{
    reveal_strlit("&nbsp;");
    reveal_strlit("&amp;");
    reveal_strlit("&lt;");
    reveal_strlit("&gt;");
    reveal_strlit("&quot;");
    reveal_strlit("&#39;");
    text::lemma_replaced_around(a, '\n', b, "&nbsp;"@, " "@);
    let a = text::replaced(a, "&nbsp;"@, " "@);
    let b = text::replaced(b, "&nbsp;"@, " "@);
    text::lemma_replaced_around(a, '\n', b, "&amp;"@, "&"@);
    let a = text::replaced(a, "&amp;"@, "&"@);
    let b = text::replaced(b, "&amp;"@, "&"@);
    text::lemma_replaced_around(a, '\n', b, "&lt;"@, "<"@);
    let a = text::replaced(a, "&lt;"@, "<"@);
    let b = text::replaced(b, "&lt;"@, "<"@);
    text::lemma_replaced_around(a, '\n', b, "&gt;"@, ">"@);
    let a = text::replaced(a, "&gt;"@, ">"@);
    let b = text::replaced(b, "&gt;"@, ">"@);
    text::lemma_replaced_around(a, '\n', b, "&quot;"@, "\""@);
    let a = text::replaced(a, "&quot;"@, "\""@);
    let b = text::replaced(b, "&quot;"@, "\""@);
    text::lemma_replaced_around(a, '\n', b, "&#39;"@, "'"@);
}

proof fn lemma_worded_lines_concat(a: Seq<Seq<char>>, b: Seq<Seq<char>>)
    ensures
        worded_lines(a + b) == worded_lines(a) + worded_lines(b),
    decreases b.len(),
{
    if b.len() == 0 {
        assert(a + b == a);
        assert(worded_lines(a) + worded_lines(b) == worded_lines(a));
    } else {
        lemma_worded_lines_concat(a, b.drop_last());
        assert((a + b).drop_last() == a + b.drop_last());
    }
}

/// A line end behind a text adds no line with a word in it, and changes no word.
proof fn lemma_worded_lines_ended(s: Seq<char>)
    ensures
        worded_lines(text::lines(s.push('\n'))) == worded_lines(text::lines(s)),
    decreases s.len(),
{
    let ended = s.push('\n');
    let n = text::position(s, '\n') as int;
    text::lemma_position(s, '\n');
    assert forall|i: int| 0 <= i < n implies #[trigger] ended[i] != '\n' by {
        assert(ended[i] == s[i]);
    }
    text::lemma_position_unique(ended, '\n', n);
    assert(ended.take(n) == s.take(n));
    let line = text::without_cr(s.take(n));
    let rest = ended.skip(n + 1);
    if n < s.len() {
        assert(rest == s.skip(n + 1).push('\n'));
        lemma_worded_lines_ended(s.skip(n + 1));
        lemma_worded_lines_concat(seq![line], text::lines(rest));
        lemma_worded_lines_concat(seq![line], text::lines(s.skip(n + 1)));
    } else {
        assert(s.take(n) == s);
        assert(text::lines(rest) == Seq::<Seq<char>>::empty());
        assert(text::lines(ended) == seq![line]);
        text::lemma_words_without_cr(s);
        assert(seq![line].drop_last() == Seq::<Seq<char>>::empty());
        assert(seq![s].drop_last() == Seq::<Seq<char>>::empty());
        if s.len() == 0 {
            assert(text::words(s) == Seq::<Seq<char>>::empty());
        }
    }
}

proof fn lemma_join_concat(a: Seq<Seq<char>>, b: Seq<Seq<char>>, separator: Seq<char>)
    requires
        a.len() > 0,
        b.len() > 0,
    ensures
        text::join(a + b, separator) == text::join(a, separator) + separator + text::join(
            b,
            separator,
        ),
    decreases b.len(),
{
    let all = a + b;
    assert(all.drop_last() == a + b.drop_last());
    if b.len() == 1 {
        assert(a + b.drop_last() == a);
    } else {
        lemma_join_concat(a, b.drop_last(), separator);
        let x = text::join(a, separator);
        let y = text::join(b.drop_last(), separator);
        assert((x + separator + y) + separator + b.last() == x + separator + (y + separator
            + b.last()));
    }
}

/// Two texts on lines of their own; one alone where the other is empty.
pub open spec fn on_two_lines(a: Seq<char>, b: Seq<char>) -> Seq<char> {
    if a.len() == 0 {
        b
    } else if b.len() == 0 {
        a
    } else {
        a + "\n"@ + b
    }
}

/// A line end separates: what stands before it and what stands behind it are normalized each by
/// itself.
pub proof fn lines_are_normalized_apart(a: Seq<char>, b: Seq<char>)
    ensures
        normalized(a + seq!['\n'] + b) == on_two_lines(normalized(a), normalized(b)),
{
    let x = decoded(a);
    let y = decoded(b);
    lemma_decoded_around(a, b);
    assert(x + seq!['\n'] + y == x.push('\n') + y);
    text::lemma_lines_concat(x.push('\n'), y);
    lemma_worded_lines_concat(text::lines(x.push('\n')), text::lines(y));
    lemma_worded_lines_ended(x);
    let before = worded_lines(text::lines(x));
    let after = worded_lines(text::lines(y));
    lemma_worded_lines_tidy(text::lines(x));
    lemma_worded_lines_tidy(text::lines(y));
    reveal_strlit("\n");
    assert("\n"@ == seq!['\n']);
    lemma_join_tidy(before, "\n"@);
    lemma_join_tidy(after, "\n"@);
    if before.len() == 0 {
        assert(before + after == after);
    } else if after.len() == 0 {
        assert(before + after == before);
    } else {
        lemma_join_concat(before, after, "\n"@);
    }
}

proof fn lemma_words_of_worded_lines(lines: Seq<Seq<char>>)
    ensures
        text::words(text::join(worded_lines(lines), "\n"@)) == text::words_of_lines(lines),
    decreases lines.len(),
{
    reveal_strlit("\n");
    reveal_strlit(" ");
    assert("\n"@ == seq!['\n']);
    assert(" "@ == seq![' ']);
    if lines.len() == 0 {
        assert(text::words(Seq::<char>::empty()) == Seq::<Seq<char>>::empty());
    } else {
        let front = worded_lines(lines.drop_last());
        let words = text::words(lines.last());
        let line = text::join(words, " "@);
        lemma_words_of_worded_lines(lines.drop_last());
        text::lemma_words(lines.last());
        text::lemma_words_of_join(words, ' ');
        if line.len() == 0 {
            assert(text::words(line) == Seq::<Seq<char>>::empty());
            assert(text::words_of_lines(lines.drop_last()) + words == text::words_of_lines(
                lines.drop_last(),
            ));
        } else {
            assert(front.push(line).drop_last() == front);
            if front.len() == 0 {
                assert(text::words(Seq::<char>::empty()) == Seq::<Seq<char>>::empty());
                assert(text::words_of_lines(lines.drop_last()) + words == words);
            } else {
                text::lemma_words_around_blank(text::join(front, "\n"@), '\n', line);
            }
        }
    }
}

/// Normalizing a text without character references keeps its words, all of them and in order.
pub proof fn words_are_kept(s: Seq<char>)
    requires
        !s.contains('&'),
    ensures
        text::words(normalized(s)) == text::words(s),
{
    reveal_strlit("&nbsp;");
    reveal_strlit("&amp;");
    reveal_strlit("&lt;");
    reveal_strlit("&gt;");
    reveal_strlit("&quot;");
    reveal_strlit("&#39;");
    text::lemma_replaced_absent(s, "&nbsp;"@, " "@);
    text::lemma_replaced_absent(s, "&amp;"@, "&"@);
    text::lemma_replaced_absent(s, "&lt;"@, "<"@);
    text::lemma_replaced_absent(s, "&gt;"@, ">"@);
    text::lemma_replaced_absent(s, "&quot;"@, "\""@);
    text::lemma_replaced_absent(s, "&#39;"@, "'"@);
    lemma_words_of_worded_lines(text::lines(s));
    text::lemma_words_of_lines(s);
}

/// The elements whose content is not shown, in whatever case their tag is written.
pub open spec fn is_hidden_tag(tag: Seq<char>) -> bool {
    ||| text::same_ignoring_ascii_case(tag, "script"@)
    ||| text::same_ignoring_ascii_case(tag, "style"@)
    ||| text::same_ignoring_ascii_case(tag, "noscript"@)
    ||| text::same_ignoring_ascii_case(tag, "template"@)
    ||| text::same_ignoring_ascii_case(tag, "svg"@)
    ||| text::same_ignoring_ascii_case(tag, "head"@)
}

proof fn lemma_names_apart()
    ensures
        markup::is_element_name("title"@),
        markup::are_apart("title"@, "script"@),
        markup::are_apart("title"@, "style"@),
        markup::are_apart("title"@, "noscript"@),
        markup::are_apart("title"@, "template"@),
        markup::are_apart("title"@, "svg"@),
        markup::are_apart("title"@, "head"@),
        markup::are_apart("script"@, "style"@),
        markup::are_apart("script"@, "noscript"@),
        markup::are_apart("script"@, "template"@),
        markup::are_apart("script"@, "svg"@),
        markup::are_apart("script"@, "head"@),
        markup::are_apart("style"@, "noscript"@),
        markup::are_apart("style"@, "template"@),
        markup::are_apart("style"@, "svg"@),
        markup::are_apart("style"@, "head"@),
        markup::are_apart("noscript"@, "template"@),
        markup::are_apart("noscript"@, "svg"@),
        markup::are_apart("noscript"@, "head"@),
        markup::are_apart("template"@, "svg"@),
        markup::are_apart("template"@, "head"@),
        markup::are_apart("svg"@, "head"@),
{
    reveal_strlit("title");
    reveal_strlit("script");
    reveal_strlit("style");
    reveal_strlit("noscript");
    reveal_strlit("template");
    reveal_strlit("svg");
    reveal_strlit("head");
    assert("title"@[0] == 't' && "title"@[1] == 'i');
    assert("script"@[0] == 's' && "script"@[1] == 'c');
    assert("style"@[0] == 's' && "style"@[1] == 't');
    assert("noscript"@[0] == 'n');
    assert("template"@[0] == 't' && "template"@[1] == 'e');
    assert("svg"@[0] == 's' && "svg"@[1] == 'v');
    assert("head"@[0] == 'h');
}

/// What has one of two different names, but for its case, does not have the other.
proof fn lemma_not_the_other(tag: Seq<char>, name: Seq<char>, other: Seq<char>)
    requires
        markup::is_element_name(name),
        markup::is_element_name(other),
        text::same_ignoring_ascii_case(tag, name),
        markup::are_apart(other, name),
    ensures
        !text::same_ignoring_ascii_case(tag, other),
        markup::is_tag_name(tag),
{
    let k = choose|k: int|
        0 <= k < other.len() && k < name.len() && #[trigger] other[k] != name[k];
    markup::lemma_letter(tag, name, k);
    assert('a' <= other[k] <= 'z');
    if text::same_ignoring_ascii_case(tag, other) {
        assert(text::ascii_lower(tag[k]) == text::ascii_lower(other[k]));
    }
    assert forall|i: int| 0 <= i < tag.len() implies markup::is_alphanumeric(#[trigger] tag[i]) by {
        markup::lemma_letter(tag, name, i);
    }
}

/// An element of one kind is left alone when those of another kind are removed, if there are none.
proof fn lemma_other_element_stays(
    a: Seq<char>,
    tag: Seq<char>,
    c: Seq<char>,
    b: Seq<char>,
    name: Seq<char>,
)
    requires
        markup::is_element_name(name),
        markup::is_framed(a, tag, c, b, name),
    ensures
        forall|other: Seq<char>|
            markup::is_element_name(other) && markup::are_apart(other, name)
                && markup::holds_no_start(a, other) && markup::holds_no_start(c, other)
                && markup::holds_no_start(b, other) ==> #[trigger] markup::holds_no_start(
                markup::with_element(a, tag, c, b),
                other,
            ),
        without_element(markup::with_element(a, tag, c, b), name) == a + b,
{
    let html = markup::with_element(a, tag, c, b);
    assert forall|other: Seq<char>|
        markup::is_element_name(other) && markup::are_apart(other, name)
            && markup::holds_no_start(a, other) && markup::holds_no_start(c, other)
            && markup::holds_no_start(b, other) implies #[trigger] markup::holds_no_start(
        html,
        other,
    ) by {
        lemma_not_the_other(tag, name, other);
        markup::lemma_another_element(a, tag, c, b, other);
    }
    markup::lemma_without_lone_element(a, tag, c, b, name);
}

/// A page that holds no start tag of an element whose content is not shown.
pub open spec fn is_free_of_hidden(s: Seq<char>) -> bool {
    &&& markup::holds_no_start(s, "script"@)
    &&& markup::holds_no_start(s, "style"@)
    &&& markup::holds_no_start(s, "noscript"@)
    &&& markup::holds_no_start(s, "template"@)
    &&& markup::holds_no_start(s, "svg"@)
    &&& markup::holds_no_start(s, "head"@)
}

/// The names of the elements whose content is not shown.
pub open spec fn is_hidden_name(name: Seq<char>) -> bool {
    name == "script"@ || name == "style"@ || name == "noscript"@ || name == "template"@ || name
        == "svg"@ || name == "head"@
}

/// A script, a style sheet or another such element leaves no trace in a page, whatever stands in
/// it, and whatever stands around it stays: the readable text is that of the page without it.
pub proof fn hidden_elements_leave_no_trace(
    before: Seq<char>,
    tag: Seq<char>,
    content: Seq<char>,
    after: Seq<char>,
    name: Seq<char>,
)
    requires
        is_hidden_name(name),
        text::same_ignoring_ascii_case(tag, name),
        is_free_of_hidden(before),
        is_free_of_hidden(content),
        is_free_of_hidden(after),
        is_free_of_hidden(before + after),
        markup::holds_no_start(content, seq!['/'] + name),
    ensures
        unmarked(markup::with_element(before, tag, content, after)) == unmarked(before + after),
        without_hidden_elements(markup::with_element(before, tag, content, after)) == before
            + after,
{
    lemma_hidden_names();
    lemma_names_apart();
    assert(markup::end_of(name) == seq!['/'] + name);
    assert(markup::is_framed(before, tag, content, after, name));
    lemma_other_element_stays(before, tag, content, after, name);
    let html = markup::with_element(before, tag, content, after);
    assert(without_hidden_elements(html) == before + after);
    assert(without_hidden_elements(before + after) == before + after);
}

/// What stands in a script, a style sheet or another such element never reaches the summary of a
/// page: the summary is the one of the text around it.
pub proof fn hidden_content_is_not_shown(
    before: Seq<char>,
    tag: Seq<char>,
    content: Seq<char>,
    after: Seq<char>,
    url: Option<Seq<char>>,
    http_status: Option<u16>,
    content_type: Option<Seq<char>>,
    original_bytes: nat,
)
    requires
        is_hidden_tag(tag),
        !before.contains('<'),
        !content.contains('<'),
        !after.contains('<'),
    ensures
        html_summary(
            markup::with_element(before, tag, content, after),
            url,
            http_status,
            content_type,
            original_bytes,
        ) == html_summary(before + after, url, http_status, content_type, original_bytes),
{
    lemma_hidden_names();
    lemma_names_apart();
    let name = if text::same_ignoring_ascii_case(tag, "script"@) {
        "script"@
    } else if text::same_ignoring_ascii_case(tag, "style"@) {
        "style"@
    } else if text::same_ignoring_ascii_case(tag, "noscript"@) {
        "noscript"@
    } else if text::same_ignoring_ascii_case(tag, "template"@) {
        "template"@
    } else if text::same_ignoring_ascii_case(tag, "svg"@) {
        "svg"@
    } else {
        "head"@
    };
    markup::lemma_no_markup_concat(before, after);
    assert forall|other: Seq<char>| true implies #[trigger] markup::holds_no_start(before, other)
        && markup::holds_no_start(content, other) && markup::holds_no_start(after, other)
        && markup::holds_no_start(before + after, other) by {
        markup::lemma_no_markup(before, other);
        markup::lemma_no_markup(content, other);
        markup::lemma_no_markup(after, other);
        markup::lemma_no_markup(before + after, other);
    }
    markup::lemma_plain_is_framed(before, tag, content, after, name);
    assert(markup::holds_no_start(before, "script"@));
    assert(markup::holds_no_start(before, "style"@));
    assert(markup::holds_no_start(before, "noscript"@));
    assert(markup::holds_no_start(before, "template"@));
    assert(markup::holds_no_start(before, "svg"@));
    assert(markup::holds_no_start(before, "head"@));
    assert(markup::holds_no_start(before, "title"@));
    assert(markup::holds_no_start(before, seq!['/'] + name));
    assert(markup::end_of(name) == seq!['/'] + name);
    hidden_elements_leave_no_trace(before, tag, content, after, name);
    lemma_other_element_stays(before, tag, content, after, name);
    assert(markup::holds_no_start(markup::with_element(before, tag, content, after), "title"@));
    assert(markup::holds_no_start(before + after, "title"@));
}

proof fn lemma_notice_fits()
    ensures
        encode_utf8(truncation_notice()).len() <= MCP_HTML_PREVIEW_LIMIT,
{
    let head = "\n\n[HTML preview truncated at "@;
    let tail = " bytes; use browser_curl with -o <path> to retrieve the full response.]"@;
    let number = text::decimal(MCP_HTML_PREVIEW_LIMIT as nat);
    reveal_strlit("\n\n[HTML preview truncated at ");
    reveal_strlit(" bytes; use browser_curl with -o <path> to retrieve the full response.]");
    assert(number.len() == 5 && is_ascii_chars(number)) by {
        reveal_with_fuel(text::decimal, 6);
    }
    is_ascii_chars_encode_utf8(head);
    is_ascii_chars_encode_utf8(number);
    is_ascii_chars_encode_utf8(tail);
    utf8::lemma_encode_concat(head, number);
    utf8::lemma_encode_concat(head + number, tail);
}

/// A preview never takes more bytes than the limit, whatever the page holds.
pub proof fn preview_is_bounded(summary: Seq<char>)
    ensures
        encode_utf8(preview(summary)).len() <= MCP_HTML_PREVIEW_LIMIT,
{
    if overlong(summary) {
        let prefix = utf8::fitting_prefix(summary, kept_bytes());
        lemma_notice_fits();
        utf8::lemma_fitting_prefix(summary, kept_bytes());
        utf8::lemma_trim_end_shrinks(prefix);
        utf8::lemma_encode_concat(text::trim_end(prefix), truncation_notice());
    }
}

/// A preview from which text was left out is a beginning of the summary and the notice; any other
/// preview is the summary itself.
pub proof fn preview_keeps_the_beginning(summary: Seq<char>)
    ensures
        !overlong(summary) ==> preview(summary) == summary,
        overlong(summary) ==> exists|n: int|
            0 <= n < summary.len() && preview(summary) == #[trigger] summary.take(n)
                + truncation_notice(),
{
    if overlong(summary) {
        let prefix = utf8::fitting_prefix(summary, kept_bytes());
        utf8::lemma_fitting_prefix(summary, kept_bytes());
        text::lemma_trim_end_is_prefix(prefix);
        let kept = text::trim_end(prefix);
        let n = kept.len() as int;
        assert(summary.take(n) == kept);
        if n == summary.len() {
            assert(kept == summary);
            assert(prefix == summary);
        }
    }
}

// ---------------------------------------------------------------------------------------------
// What becomes of the tags of a page

/// Text without markup is shown as it is.
pub proof fn text_is_shown(u: Seq<char>)
    requires
        !u.contains('<'),
    ensures
        unmarked(u) == u,
{
    markup::lemma_no_tag(u);
    markup::lemma_no_markup(u, "script"@);
    markup::lemma_no_markup(u, "style"@);
    markup::lemma_no_markup(u, "noscript"@);
    markup::lemma_no_markup(u, "template"@);
    markup::lemma_no_markup(u, "svg"@);
    markup::lemma_no_markup(u, "head"@);
    markup::lemma_no_attribute(u);
}

/// What is shown of a page of simple tags without hidden elements.
proof fn lemma_simple_page_is_shown(s: Seq<char>)
    requires
        markup::holds_simple_tags(s),
        is_free_of_hidden(s),
    ensures
        unmarked(s) == markup::without_tags(
            markup::tags_replaced(
                markup::TagKind::Block,
                markup::tags_replaced(markup::TagKind::ListItem, s, "\n- "@),
                "\n"@,
            ),
        ),
{
    reveal_strlit("\n- ");
    markup::lemma_no_attribute(s);
    markup::lemma_still_simple(markup::TagKind::ListItem, s, "\n- "@);
}

/// What a simple tag becomes in the readable text: the start of a list item begins a line with a
/// dash, the tags of an element that stands on lines of its own begin a line, and any other tag
/// vanishes. What stands before it and what stands behind it stays. This holds for every tag in a
/// page of simple tags that has no script, style sheet or other hidden element.
pub proof fn tags_become_marks(u: Seq<char>, tag: Seq<char>, v: Seq<char>)
    requires
        !u.contains('<'),
        markup::is_simple_tag(tag),
        markup::holds_simple_tags(v),
        ({
            let page = u + seq!['<'] + tag + seq!['>'] + v;
            &&& markup::holds_no_start(page, "script"@)
            &&& markup::holds_no_start(page, "style"@)
            &&& markup::holds_no_start(page, "noscript"@)
            &&& markup::holds_no_start(page, "template"@)
            &&& markup::holds_no_start(page, "svg"@)
            &&& markup::holds_no_start(page, "head"@)
        }),
    ensures
        ({
            let mark = if text::same_ignoring_ascii_case(tag, "li"@) {
                "\n- "@
            } else if markup::is_block_name(tag) || (tag[0] == '/' && markup::is_block_name(
                tag.skip(1),
            )) {
                "\n"@
            } else {
                Seq::empty()
            };
            unmarked(u + seq!['<'] + tag + seq!['>'] + v) == u + mark + unmarked(v)
        }),
{
    let page = u + seq!['<'] + tag + seq!['>'] + v;
    let token = markup::tag_text(tag);
    assert(page == u + token + v);
    assert(page == (u + token) + v);
    markup::lemma_no_start_in_rest(u + token, v, "script"@);
    markup::lemma_no_start_in_rest(u + token, v, "style"@);
    markup::lemma_no_start_in_rest(u + token, v, "noscript"@);
    markup::lemma_no_start_in_rest(u + token, v, "template"@);
    markup::lemma_no_start_in_rest(u + token, v, "svg"@);
    markup::lemma_no_start_in_rest(u + token, v, "head"@);
    markup::lemma_tag_is_first(u, tag, v);
    lemma_simple_page_is_shown(page);
    lemma_simple_page_is_shown(v);
    reveal_strlit("\n- ");
    reveal_strlit("\n");
    let item = markup::TagKind::ListItem;
    let block = markup::TagKind::Block;
    let listed = markup::tags_replaced(item, v, "\n- "@);
    let broken = markup::tags_replaced(block, listed, "\n"@);
    markup::lemma_still_simple(item, v, "\n- "@);
    markup::lemma_still_simple(block, listed, "\n"@);
    assert(markup::tags_replaced(item, u + token + v, "\n- "@) == u + (if markup::is_of_kind(
        item,
        tag,
    ) {
        "\n- "@
    } else {
        token
    }) + listed);
    if markup::is_of_kind(item, tag) {
        markup::lemma_no_markup_concat(u, "\n- "@);
        markup::lemma_text_before(u + "\n- "@, listed);
        markup::lemma_text_before(u + "\n- "@, broken);
        assert(markup::tags_replaced(block, (u + "\n- "@) + listed, "\n"@) == (u + "\n- "@)
            + broken);
    } else {
        markup::lemma_tag_is_first(u, tag, listed);
        assert(markup::tags_replaced(block, u + token + listed, "\n"@) == u + (
        if markup::is_of_kind(block, tag) {
            "\n"@
        } else {
            token
        }) + broken);
        if markup::is_of_kind(block, tag) {
            markup::lemma_no_markup_concat(u, "\n"@);
            markup::lemma_text_before(u + "\n"@, broken);
        } else {
            markup::lemma_tag_is_first(u, tag, broken);
            assert(u + Seq::<char>::empty() + markup::without_tags(broken) == u
                + markup::without_tags(broken));
        }
    }
}

/// Visible content is kept. The content of an element is shown, and so is what stands around it,
/// unless the element is one of the six kinds that are hidden: on lines of their own for a block,
/// behind a dash for a list item, and in place for any other element.
pub proof fn visible_content_is_kept(
    before: Seq<char>,
    tag: Seq<char>,
    content: Seq<char>,
    after: Seq<char>,
)
    requires
        !before.contains('<'),
        !content.contains('<'),
        !after.contains('<'),
        markup::is_tag_name(tag),
        !text::same_ignoring_ascii_case(tag, "script"@),
        !text::same_ignoring_ascii_case(tag, "style"@),
        !text::same_ignoring_ascii_case(tag, "noscript"@),
        !text::same_ignoring_ascii_case(tag, "template"@),
        !text::same_ignoring_ascii_case(tag, "svg"@),
        !text::same_ignoring_ascii_case(tag, "head"@),
    ensures
        ({
            let page = before + seq!['<'] + tag + seq!['>'] + content + seq!['<', '/'] + tag
                + seq!['>'] + after;
            let shown = unmarked(page);
            &&& markup::is_block_name(tag) ==> shown == before + "\n"@ + content + "\n"@ + after
            &&& text::same_ignoring_ascii_case(tag, "li"@) ==> shown == before + "\n- "@ + content
                + after
            &&& !markup::is_block_name(tag) && !text::same_ignoring_ascii_case(tag, "li"@) ==> shown
                == before + content + after
            &&& markup::is_block_name(tag) && !(before + content + after).contains('&')
                ==> text::words(normalized(shown)) == text::words(before) + text::words(content)
                + text::words(after)
            &&& !markup::is_block_name(tag) && !text::same_ignoring_ascii_case(tag, "li"@)
                && !(before + content + after).contains('&') ==> text::words(normalized(shown))
                == text::words(before + content + after)
        }),
{
    let page = before + seq!['<'] + tag + seq!['>'] + content + seq!['<', '/'] + tag + seq!['>']
        + after;
    let end = markup::end_of(tag);
    let rest = content + seq!['<'] + end + seq!['>'] + after;
    assert(end.skip(1) == tag);
    assert(markup::is_simple_tag(end));
    assert(page == markup::with_element(before, tag, content, after));
    assert(page == before + seq!['<'] + tag + seq!['>'] + rest);
    lemma_hidden_names();
    lemma_other_tag_is_free(before, tag, content, after, "script"@);
    lemma_other_tag_is_free(before, tag, content, after, "style"@);
    lemma_other_tag_is_free(before, tag, content, after, "noscript"@);
    lemma_other_tag_is_free(before, tag, content, after, "template"@);
    lemma_other_tag_is_free(before, tag, content, after, "svg"@);
    lemma_other_tag_is_free(before, tag, content, after, "head"@);
    markup::lemma_no_tag(after);
    markup::lemma_tag_is_first(content, end, after);
    assert(rest == content + markup::tag_text(end) + after);
    let token = before + seq!['<'] + tag + seq!['>'];
    assert(page == token + rest);
    markup::lemma_no_start_in_rest(token, rest, "script"@);
    markup::lemma_no_start_in_rest(token, rest, "style"@);
    markup::lemma_no_start_in_rest(token, rest, "noscript"@);
    markup::lemma_no_start_in_rest(token, rest, "template"@);
    markup::lemma_no_start_in_rest(token, rest, "svg"@);
    markup::lemma_no_start_in_rest(token, rest, "head"@);
    tags_become_marks(before, tag, rest);
    tags_become_marks(content, end, after);
    text_is_shown(after);
    assert(markup::is_alphanumeric(tag[0]));
    lemma_names_of_blocks(tag);
    lemma_names_of_blocks(end);
    reveal_strlit("\n");
    reveal_strlit("\n- ");
    assert("\n"@ == seq!['\n']);
    let shown = unmarked(page);
    if markup::is_block_name(tag) {
        assert(shown == before + "\n"@ + content + "\n"@ + after);
        if !(before + content + after).contains('&') {
            assert(!shown.contains('&')) by {
                lemma_no_reference(before, content, after);
            }
            words_are_kept(shown);
            text::lemma_words_around_blank(before, '\n', content + "\n"@ + after);
            text::lemma_words_around_blank(content, '\n', after);
            assert(shown == before + seq!['\n'] + (content + "\n"@ + after));
            assert(text::words(before) + (text::words(content) + text::words(after))
                == text::words(before) + text::words(content) + text::words(after));
        }
    } else if text::same_ignoring_ascii_case(tag, "li"@) {
        assert(shown == before + "\n- "@ + content + after);
    } else {
        assert(shown == before + content + after);
        if !(before + content + after).contains('&') {
            words_are_kept(shown);
        }
    }
}

proof fn lemma_no_reference(a: Seq<char>, c: Seq<char>, b: Seq<char>)
    requires
        !(a + c + b).contains('&'),
    ensures
        !(a + seq!['\n'] + c + seq!['\n'] + b).contains('&'),
{
    let s = a + seq!['\n'] + c + seq!['\n'] + b;
    let t = a + c + b;
    assert forall|i: int| 0 <= i < s.len() implies s[i] != '&' by {
        if i < a.len() {
            assert(s[i] == t[i]);
        } else if a.len() < i <= a.len() + c.len() {
            assert(s[i] == t[i - 1]);
        } else if i > a.len() + c.len() + 1 {
            assert(s[i] == t[i - 2]);
        }
    }
}

proof fn lemma_other_tag_is_free(
    a: Seq<char>,
    tag: Seq<char>,
    c: Seq<char>,
    b: Seq<char>,
    other: Seq<char>,
)
    requires
        !a.contains('<'),
        !c.contains('<'),
        !b.contains('<'),
        markup::is_tag_name(tag),
        markup::is_element_name(other),
        !text::same_ignoring_ascii_case(tag, other),
    ensures
        markup::holds_no_start(markup::with_element(a, tag, c, b), other),
{
    markup::lemma_no_markup(a, other);
    markup::lemma_no_markup(c, other);
    markup::lemma_no_markup(b, other);
    markup::lemma_another_element(a, tag, c, b, other);
}

/// The name of a list item is not that of a block, and no name of a block begins with a slash.
proof fn lemma_names_of_blocks(tag: Seq<char>)
    ensures
        text::same_ignoring_ascii_case(tag, "li"@) ==> !markup::is_block_name(tag),
        tag.len() > 0 && tag[0] == '/' ==> !markup::is_block_name(tag)
            && !text::same_ignoring_ascii_case(tag, "li"@),
{
    reveal_strlit("li");
    reveal_strlit("address");
    reveal_strlit("article");
    reveal_strlit("aside");
    reveal_strlit("blockquote");
    reveal_strlit("br");
    reveal_strlit("dd");
    reveal_strlit("div");
    reveal_strlit("dl");
    reveal_strlit("dt");
    reveal_strlit("fieldset");
    reveal_strlit("figcaption");
    reveal_strlit("figure");
    reveal_strlit("footer");
    reveal_strlit("form");
    reveal_strlit("h1");
    reveal_strlit("h2");
    reveal_strlit("h3");
    reveal_strlit("h4");
    reveal_strlit("h5");
    reveal_strlit("h6");
    reveal_strlit("header");
    reveal_strlit("hr");
    reveal_strlit("main");
    reveal_strlit("nav");
    reveal_strlit("ol");
    reveal_strlit("p");
    reveal_strlit("section");
    reveal_strlit("table");
    reveal_strlit("tbody");
    reveal_strlit("td");
    reveal_strlit("tfoot");
    reveal_strlit("th");
    reveal_strlit("thead");
    reveal_strlit("tr");
    reveal_strlit("ul");
    if text::same_ignoring_ascii_case(tag, "li"@) {
        assert(text::ascii_lower(tag[0]) == text::ascii_lower("li"@[0]));
        assert("li"@[0] == 'l');
        assert("br"@[0] == 'b' && "dd"@[0] == 'd' && "dl"@[0] == 'd' && "dt"@[0] == 'd');
        assert("h1"@[0] == 'h' && "h2"@[0] == 'h' && "h3"@[0] == 'h' && "h4"@[0] == 'h');
        assert("h5"@[0] == 'h' && "h6"@[0] == 'h' && "hr"@[0] == 'h' && "ol"@[0] == 'o');
        assert("td"@[0] == 't' && "th"@[0] == 't' && "tr"@[0] == 't' && "ul"@[0] == 'u');
    }
}

/// A link is written out: its label, and its address in brackets behind it, and what stands around
/// the link stays.
pub proof fn links_are_written_out(
    before: Seq<char>,
    href: Seq<char>,
    label: Seq<char>,
    after: Seq<char>,
)
    requires
        markup::is_plain_link(before, href, label, after),
    ensures
        ({
            let page = before + "<a href=\""@ + href + "\">"@ + label + "</a>"@ + after;
            let address = text::trim(href);
            let name = text::trim(label);
            unmarked(page) == before + (if name.len() == 0 {
                "["@ + address + "]"@
            } else if address.len() == 0 {
                label
            } else {
                name + " ["@ + address + "]"@
            }) + after
        }),
{
    let page = markup::with_link(before, href, label, after);
    reveal_strlit("<a href=\"");
    reveal_strlit("\">");
    reveal_strlit("</a>");
    reveal_strlit("[");
    reveal_strlit("]");
    reveal_strlit(" [");
    assert(page == before + "<a href=\""@ + href + "\">"@ + label + "</a>"@ + after);
    lemma_hidden_names();
    reveal_strlit("script");
    reveal_strlit("style");
    reveal_strlit("noscript");
    reveal_strlit("template");
    reveal_strlit("svg");
    reveal_strlit("head");
    markup::lemma_link_tags(before, href, label, after, "script"@);
    markup::lemma_link_tags(before, href, label, after, "style"@);
    markup::lemma_link_tags(before, href, label, after, "noscript"@);
    markup::lemma_link_tags(before, href, label, after, "template"@);
    markup::lemma_link_tags(before, href, label, after, "svg"@);
    markup::lemma_link_tags(before, href, label, after, "head"@);
    let (a, h, l, b) = choose|a: Seq<char>, h: Seq<char>, l: Seq<char>, b: Seq<char>|
        page == #[trigger] markup::with_link(a, h, l, b) && markup::is_plain_link(a, h, l, b);
    markup::lemma_link_is_unique(before, href, label, after, a, h, l, b);
    markup::lemma_no_tag(label);
    let out = link(label, href);
    let shown = before + out + after;
    assert(linked(page) == shown);
    text::lemma_trim_part(href);
    text::lemma_trim_part(label);
    assert(!out.contains('<')) by {
        assert forall|i: int| 0 <= i < out.len() implies out[i] != '<' by {
            lemma_link_characters(label, href, i);
        }
    }
    markup::lemma_no_markup_concat(before, out);
    markup::lemma_no_markup_concat(before + out, after);
    markup::lemma_no_tag(shown);
}

proof fn lemma_link_characters(label: Seq<char>, href: Seq<char>, i: int)
    requires
        !label.contains('<'),
        !href.contains('<'),
        0 <= i < link(label, href).len(),
    ensures
        link(label, href)[i] != '<',
{
    let name = text::trim(label);
    let address = text::trim(href);
    text::lemma_trim_part(href);
    text::lemma_trim_part(label);
    reveal_strlit("[");
    reveal_strlit("]");
    reveal_strlit(" [");
    let out = link(label, href);
    if name.len() == 0 {
        if 0 < i <= address.len() {
            assert(out[i] == address[i - 1]);
            assert(href.contains(address[i - 1]));
        }
    } else if address.len() == 0 {
        assert(label.contains(label[i]));
    } else if i < name.len() {
        assert(out[i] == name[i]);
        assert(label.contains(name[i]));
    } else if name.len() + 2 <= i < name.len() + 2 + address.len() {
        assert(out[i] == address[i - name.len() - 2]);
        assert(href.contains(address[i - name.len() - 2]));
    }
}

/// The title of a page is what stands in its first title element, without its tags and with its
/// white space evened out, whatever stands before and after. A page without one has none.
pub proof fn the_first_title_is_taken(
    before: Seq<char>,
    tag: Seq<char>,
    content: Seq<char>,
    after: Seq<char>,
)
    requires
        text::same_ignoring_ascii_case(tag, "title"@),
        markup::holds_no_start(before, "title"@),
        markup::holds_no_start(content, "/title"@),
    ensures
        title(
            before + seq!['<'] + tag + seq!['>'] + content + seq!['<', '/'] + tag + seq!['>'] + after,
        ) == normalized(markup::without_tags(content)),
        title(before) == Seq::<char>::empty(),
{
    reveal_strlit("title");
    reveal_strlit("/title");
    assert(markup::end_of("title"@) == "/title"@);
    assert(markup::is_element_name("title"@));
    markup::lemma_first_content(before, tag, content, after, "title"@);
}

// ---------------------------------------------------------------------------------------------
// What normalizing does to a line

/// Replacing in a text with one `&` in it: only there can something be found.
proof fn lemma_one_reference(a: Seq<char>, r: Seq<char>, from: Seq<char>, to: Seq<char>)
    requires
        !a.contains('&'),
        !r.contains('&'),
        from.len() > 0,
        from[0] == '&',
    ensures
        from.is_prefix_of(seq!['&'] + r) ==> text::replaced(a + seq!['&'] + r, from, to) == a + to
            + (seq!['&'] + r).skip(from.len() as int),
        !from.is_prefix_of(seq!['&'] + r) ==> text::replaced(a + seq!['&'] + r, from, to) == a
            + seq!['&'] + r,
    decreases a.len(),
{
    let s = a + seq!['&'] + r;
    let tail = seq!['&'] + r;
    if a.len() > 0 {
        assert(!from.is_prefix_of(s)) by {
            if from.is_prefix_of(s) {
                assert(s.subrange(0, from.len() as int)[0] == s[0]);
                assert(s[0] == a[0]);
            }
        }
        let rest = a.skip(1);
        assert(!rest.contains('&')) by {
            assert forall|i: int| 0 <= i < rest.len() implies rest[i] != '&' by {
                assert(rest[i] == a[i + 1]);
            }
        }
        lemma_one_reference(rest, r, from, to);
        assert(s.skip(1) == rest + seq!['&'] + r);
        assert(s[0] == a[0]);
        assert(seq![a[0]] + rest == a);
        if from.is_prefix_of(tail) {
            assert(seq![a[0]] + (rest + to + tail.skip(from.len() as int)) == a + to + tail.skip(
                from.len() as int,
            ));
        } else {
            assert(seq![a[0]] + (rest + seq!['&'] + r) == a + seq!['&'] + r);
        }
    } else {
        assert(s == tail);
        if from.is_prefix_of(tail) {
            let rest = tail.skip(from.len() as int);
            assert(!rest.contains('&')) by {
                assert forall|i: int| 0 <= i < rest.len() implies rest[i] != '&' by {
                    assert(rest[i] == r[i + from.len() - 1]);
                }
            }
            text::lemma_replaced_absent(rest, from, to);
            assert(to + rest == a + to + rest);
        } else {
            assert(tail.skip(1) == r);
            text::lemma_replaced_absent(r, from, to);
            assert(seq!['&'] + r == s);
        }
    }
}

proof fn lemma_prefix_differs(from: Seq<char>, s: Seq<char>, k: int)
    requires
        0 <= k < from.len(),
        k < s.len() ==> from[k] != s[k],
    ensures
        !from.is_prefix_of(s),
{
    if from.is_prefix_of(s) {
        assert(s.subrange(0, from.len() as int)[k] == s[k]);
    }
}

/// A text without `&` stays as it is when references are resolved.
proof fn lemma_decoded_absent(s: Seq<char>)
    requires
        !s.contains('&'),
    ensures
        decoded(s) == s,
{
    reveal_strlit("&nbsp;");
    reveal_strlit("&amp;");
    reveal_strlit("&lt;");
    reveal_strlit("&gt;");
    reveal_strlit("&quot;");
    reveal_strlit("&#39;");
    text::lemma_replaced_absent(s, "&nbsp;"@, " "@);
    text::lemma_replaced_absent(s, "&amp;"@, "&"@);
    text::lemma_replaced_absent(s, "&lt;"@, "<"@);
    text::lemma_replaced_absent(s, "&gt;"@, ">"@);
    text::lemma_replaced_absent(s, "&quot;"@, "\""@);
    text::lemma_replaced_absent(s, "&#39;"@, "'"@);
}

proof fn lemma_no_ampersand(a: Seq<char>, c: Seq<char>, b: Seq<char>)
    requires
        !a.contains('&'),
        !c.contains('&'),
        !b.contains('&'),
    ensures
        !(a + c + b).contains('&'),
{
    let s = a + c + b;
    assert forall|i: int| 0 <= i < s.len() implies s[i] != '&' by {
        if i < a.len() {
            assert(s[i] == a[i]);
        } else if i < a.len() + c.len() {
            assert(s[i] == c[i - a.len()]);
        } else {
            assert(s[i] == b[i - a.len() - c.len()]);
        }
    }
}

proof fn lemma_decoded_nbsp(a: Seq<char>, b: Seq<char>)
    requires
        !a.contains('&'),
        !b.contains('&'),
    ensures
        decoded(a + "&nbsp;"@ + b) == a + " "@ + b,
{
    reveal_strlit("&nbsp;");
    reveal_strlit("&amp;");
    reveal_strlit("&lt;");
    reveal_strlit("&gt;");
    reveal_strlit("&quot;");
    reveal_strlit("&#39;");
    reveal_strlit("&nbsp;");
    reveal_strlit(" ");
    reveal_strlit(" ");
    reveal_strlit("&");
    reveal_strlit("<");
    reveal_strlit(">");
    reveal_strlit("\"");
    reveal_strlit("'");
    let s = a + "&nbsp;"@ + b;
    assert(s == a + seq!['&'] + (seq!['n', 'b', 's', 'p', ';'] + b));
    assert(!(seq!['n', 'b', 's', 'p', ';'] + b).contains('&')) by {
        lemma_no_ampersand(Seq::empty(), seq!['n', 'b', 's', 'p', ';'], b);
        assert(Seq::<char>::empty() + seq!['n', 'b', 's', 'p', ';'] + b == seq!['n', 'b', 's', 'p', ';'] + b);
    }
    lemma_one_reference(a, seq!['n', 'b', 's', 'p', ';'] + b, "&nbsp;"@, " "@);
    let tail = seq!['&'] + (seq!['n', 'b', 's', 'p', ';'] + b);
    assert("&nbsp;"@.is_prefix_of(tail)) by {
        assert(tail.subrange(0, "&nbsp;"@.len() as int) == "&nbsp;"@);
    }
    assert(tail.skip("&nbsp;"@.len() as int) == b);
    let s = a + " "@ + (b);
    assert(!s.contains('&')) by {
        lemma_no_ampersand(a, " "@, b);
    }
    text::lemma_replaced_absent(s, "&amp;"@, "&"@);
    text::lemma_replaced_absent(s, "&lt;"@, "<"@);
    text::lemma_replaced_absent(s, "&gt;"@, ">"@);
    text::lemma_replaced_absent(s, "&quot;"@, "\""@);
    text::lemma_replaced_absent(s, "&#39;"@, "'"@);
    assert(s == a + " "@ + b);
}

proof fn lemma_decoded_lt(a: Seq<char>, b: Seq<char>)
    requires
        !a.contains('&'),
        !b.contains('&'),
    ensures
        decoded(a + "&lt;"@ + b) == a + "<"@ + b,
{
    reveal_strlit("&nbsp;");
    reveal_strlit("&amp;");
    reveal_strlit("&lt;");
    reveal_strlit("&gt;");
    reveal_strlit("&quot;");
    reveal_strlit("&#39;");
    reveal_strlit("&lt;");
    reveal_strlit("<");
    reveal_strlit(" ");
    reveal_strlit("&");
    reveal_strlit("<");
    reveal_strlit(">");
    reveal_strlit("\"");
    reveal_strlit("'");
    let s = a + "&lt;"@ + b;
    assert(s == a + seq!['&'] + (seq!['l', 't', ';'] + b));
    assert(!(seq!['l', 't', ';'] + b).contains('&')) by {
        lemma_no_ampersand(Seq::empty(), seq!['l', 't', ';'], b);
        assert(Seq::<char>::empty() + seq!['l', 't', ';'] + b == seq!['l', 't', ';'] + b);
    }
    lemma_one_reference(a, seq!['l', 't', ';'] + b, "&nbsp;"@, " "@);
    lemma_prefix_differs("&nbsp;"@, seq!['&'] + (seq!['l', 't', ';'] + b), 1);
    assert(s == a + seq!['&'] + (seq!['l', 't', ';'] + b));
    assert(!(seq!['l', 't', ';'] + b).contains('&')) by {
        lemma_no_ampersand(Seq::empty(), seq!['l', 't', ';'], b);
        assert(Seq::<char>::empty() + seq!['l', 't', ';'] + b == seq!['l', 't', ';'] + b);
    }
    lemma_one_reference(a, seq!['l', 't', ';'] + b, "&amp;"@, "&"@);
    lemma_prefix_differs("&amp;"@, seq!['&'] + (seq!['l', 't', ';'] + b), 1);
    assert(s == a + seq!['&'] + (seq!['l', 't', ';'] + b));
    assert(!(seq!['l', 't', ';'] + b).contains('&')) by {
        lemma_no_ampersand(Seq::empty(), seq!['l', 't', ';'], b);
        assert(Seq::<char>::empty() + seq!['l', 't', ';'] + b == seq!['l', 't', ';'] + b);
    }
    lemma_one_reference(a, seq!['l', 't', ';'] + b, "&lt;"@, "<"@);
    let tail = seq!['&'] + (seq!['l', 't', ';'] + b);
    assert("&lt;"@.is_prefix_of(tail)) by {
        assert(tail.subrange(0, "&lt;"@.len() as int) == "&lt;"@);
    }
    assert(tail.skip("&lt;"@.len() as int) == b);
    let s = a + "<"@ + (b);
    assert(!s.contains('&')) by {
        lemma_no_ampersand(a, "<"@, b);
    }
    text::lemma_replaced_absent(s, "&gt;"@, ">"@);
    text::lemma_replaced_absent(s, "&quot;"@, "\""@);
    text::lemma_replaced_absent(s, "&#39;"@, "'"@);
    assert(s == a + "<"@ + b);
}

proof fn lemma_decoded_gt(a: Seq<char>, b: Seq<char>)
    requires
        !a.contains('&'),
        !b.contains('&'),
    ensures
        decoded(a + "&gt;"@ + b) == a + ">"@ + b,
{
    reveal_strlit("&nbsp;");
    reveal_strlit("&amp;");
    reveal_strlit("&lt;");
    reveal_strlit("&gt;");
    reveal_strlit("&quot;");
    reveal_strlit("&#39;");
    reveal_strlit("&gt;");
    reveal_strlit(">");
    reveal_strlit(" ");
    reveal_strlit("&");
    reveal_strlit("<");
    reveal_strlit(">");
    reveal_strlit("\"");
    reveal_strlit("'");
    let s = a + "&gt;"@ + b;
    assert(s == a + seq!['&'] + (seq!['g', 't', ';'] + b));
    assert(!(seq!['g', 't', ';'] + b).contains('&')) by {
        lemma_no_ampersand(Seq::empty(), seq!['g', 't', ';'], b);
        assert(Seq::<char>::empty() + seq!['g', 't', ';'] + b == seq!['g', 't', ';'] + b);
    }
    lemma_one_reference(a, seq!['g', 't', ';'] + b, "&nbsp;"@, " "@);
    lemma_prefix_differs("&nbsp;"@, seq!['&'] + (seq!['g', 't', ';'] + b), 1);
    assert(s == a + seq!['&'] + (seq!['g', 't', ';'] + b));
    assert(!(seq!['g', 't', ';'] + b).contains('&')) by {
        lemma_no_ampersand(Seq::empty(), seq!['g', 't', ';'], b);
        assert(Seq::<char>::empty() + seq!['g', 't', ';'] + b == seq!['g', 't', ';'] + b);
    }
    lemma_one_reference(a, seq!['g', 't', ';'] + b, "&amp;"@, "&"@);
    lemma_prefix_differs("&amp;"@, seq!['&'] + (seq!['g', 't', ';'] + b), 1);
    assert(s == a + seq!['&'] + (seq!['g', 't', ';'] + b));
    assert(!(seq!['g', 't', ';'] + b).contains('&')) by {
        lemma_no_ampersand(Seq::empty(), seq!['g', 't', ';'], b);
        assert(Seq::<char>::empty() + seq!['g', 't', ';'] + b == seq!['g', 't', ';'] + b);
    }
    lemma_one_reference(a, seq!['g', 't', ';'] + b, "&lt;"@, "<"@);
    lemma_prefix_differs("&lt;"@, seq!['&'] + (seq!['g', 't', ';'] + b), 1);
    assert(s == a + seq!['&'] + (seq!['g', 't', ';'] + b));
    assert(!(seq!['g', 't', ';'] + b).contains('&')) by {
        lemma_no_ampersand(Seq::empty(), seq!['g', 't', ';'], b);
        assert(Seq::<char>::empty() + seq!['g', 't', ';'] + b == seq!['g', 't', ';'] + b);
    }
    lemma_one_reference(a, seq!['g', 't', ';'] + b, "&gt;"@, ">"@);
    let tail = seq!['&'] + (seq!['g', 't', ';'] + b);
    assert("&gt;"@.is_prefix_of(tail)) by {
        assert(tail.subrange(0, "&gt;"@.len() as int) == "&gt;"@);
    }
    assert(tail.skip("&gt;"@.len() as int) == b);
    let s = a + ">"@ + (b);
    assert(!s.contains('&')) by {
        lemma_no_ampersand(a, ">"@, b);
    }
    text::lemma_replaced_absent(s, "&quot;"@, "\""@);
    text::lemma_replaced_absent(s, "&#39;"@, "'"@);
    assert(s == a + ">"@ + b);
}

proof fn lemma_decoded_quot(a: Seq<char>, b: Seq<char>)
    requires
        !a.contains('&'),
        !b.contains('&'),
    ensures
        decoded(a + "&quot;"@ + b) == a + "\""@ + b,
{
    reveal_strlit("&nbsp;");
    reveal_strlit("&amp;");
    reveal_strlit("&lt;");
    reveal_strlit("&gt;");
    reveal_strlit("&quot;");
    reveal_strlit("&#39;");
    reveal_strlit("&quot;");
    reveal_strlit("\"");
    reveal_strlit(" ");
    reveal_strlit("&");
    reveal_strlit("<");
    reveal_strlit(">");
    reveal_strlit("\"");
    reveal_strlit("'");
    let s = a + "&quot;"@ + b;
    assert(s == a + seq!['&'] + (seq!['q', 'u', 'o', 't', ';'] + b));
    assert(!(seq!['q', 'u', 'o', 't', ';'] + b).contains('&')) by {
        lemma_no_ampersand(Seq::empty(), seq!['q', 'u', 'o', 't', ';'], b);
        assert(Seq::<char>::empty() + seq!['q', 'u', 'o', 't', ';'] + b == seq!['q', 'u', 'o', 't', ';'] + b);
    }
    lemma_one_reference(a, seq!['q', 'u', 'o', 't', ';'] + b, "&nbsp;"@, " "@);
    lemma_prefix_differs("&nbsp;"@, seq!['&'] + (seq!['q', 'u', 'o', 't', ';'] + b), 1);
    assert(s == a + seq!['&'] + (seq!['q', 'u', 'o', 't', ';'] + b));
    assert(!(seq!['q', 'u', 'o', 't', ';'] + b).contains('&')) by {
        lemma_no_ampersand(Seq::empty(), seq!['q', 'u', 'o', 't', ';'], b);
        assert(Seq::<char>::empty() + seq!['q', 'u', 'o', 't', ';'] + b == seq!['q', 'u', 'o', 't', ';'] + b);
    }
    lemma_one_reference(a, seq!['q', 'u', 'o', 't', ';'] + b, "&amp;"@, "&"@);
    lemma_prefix_differs("&amp;"@, seq!['&'] + (seq!['q', 'u', 'o', 't', ';'] + b), 1);
    assert(s == a + seq!['&'] + (seq!['q', 'u', 'o', 't', ';'] + b));
    assert(!(seq!['q', 'u', 'o', 't', ';'] + b).contains('&')) by {
        lemma_no_ampersand(Seq::empty(), seq!['q', 'u', 'o', 't', ';'], b);
        assert(Seq::<char>::empty() + seq!['q', 'u', 'o', 't', ';'] + b == seq!['q', 'u', 'o', 't', ';'] + b);
    }
    lemma_one_reference(a, seq!['q', 'u', 'o', 't', ';'] + b, "&lt;"@, "<"@);
    lemma_prefix_differs("&lt;"@, seq!['&'] + (seq!['q', 'u', 'o', 't', ';'] + b), 1);
    assert(s == a + seq!['&'] + (seq!['q', 'u', 'o', 't', ';'] + b));
    assert(!(seq!['q', 'u', 'o', 't', ';'] + b).contains('&')) by {
        lemma_no_ampersand(Seq::empty(), seq!['q', 'u', 'o', 't', ';'], b);
        assert(Seq::<char>::empty() + seq!['q', 'u', 'o', 't', ';'] + b == seq!['q', 'u', 'o', 't', ';'] + b);
    }
    lemma_one_reference(a, seq!['q', 'u', 'o', 't', ';'] + b, "&gt;"@, ">"@);
    lemma_prefix_differs("&gt;"@, seq!['&'] + (seq!['q', 'u', 'o', 't', ';'] + b), 1);
    assert(s == a + seq!['&'] + (seq!['q', 'u', 'o', 't', ';'] + b));
    assert(!(seq!['q', 'u', 'o', 't', ';'] + b).contains('&')) by {
        lemma_no_ampersand(Seq::empty(), seq!['q', 'u', 'o', 't', ';'], b);
        assert(Seq::<char>::empty() + seq!['q', 'u', 'o', 't', ';'] + b == seq!['q', 'u', 'o', 't', ';'] + b);
    }
    lemma_one_reference(a, seq!['q', 'u', 'o', 't', ';'] + b, "&quot;"@, "\""@);
    let tail = seq!['&'] + (seq!['q', 'u', 'o', 't', ';'] + b);
    assert("&quot;"@.is_prefix_of(tail)) by {
        assert(tail.subrange(0, "&quot;"@.len() as int) == "&quot;"@);
    }
    assert(tail.skip("&quot;"@.len() as int) == b);
    let s = a + "\""@ + (b);
    assert(!s.contains('&')) by {
        lemma_no_ampersand(a, "\""@, b);
    }
    text::lemma_replaced_absent(s, "&#39;"@, "'"@);
    assert(s == a + "\""@ + b);
}

proof fn lemma_decoded_apostrophe(a: Seq<char>, b: Seq<char>)
    requires
        !a.contains('&'),
        !b.contains('&'),
    ensures
        decoded(a + "&#39;"@ + b) == a + "'"@ + b,
{
    reveal_strlit("&nbsp;");
    reveal_strlit("&amp;");
    reveal_strlit("&lt;");
    reveal_strlit("&gt;");
    reveal_strlit("&quot;");
    reveal_strlit("&#39;");
    reveal_strlit("&#39;");
    reveal_strlit("'");
    reveal_strlit(" ");
    reveal_strlit("&");
    reveal_strlit("<");
    reveal_strlit(">");
    reveal_strlit("\"");
    reveal_strlit("'");
    let s = a + "&#39;"@ + b;
    assert(s == a + seq!['&'] + (seq!['#', '3', '9', ';'] + b));
    assert(!(seq!['#', '3', '9', ';'] + b).contains('&')) by {
        lemma_no_ampersand(Seq::empty(), seq!['#', '3', '9', ';'], b);
        assert(Seq::<char>::empty() + seq!['#', '3', '9', ';'] + b == seq!['#', '3', '9', ';'] + b);
    }
    lemma_one_reference(a, seq!['#', '3', '9', ';'] + b, "&nbsp;"@, " "@);
    lemma_prefix_differs("&nbsp;"@, seq!['&'] + (seq!['#', '3', '9', ';'] + b), 1);
    assert(s == a + seq!['&'] + (seq!['#', '3', '9', ';'] + b));
    assert(!(seq!['#', '3', '9', ';'] + b).contains('&')) by {
        lemma_no_ampersand(Seq::empty(), seq!['#', '3', '9', ';'], b);
        assert(Seq::<char>::empty() + seq!['#', '3', '9', ';'] + b == seq!['#', '3', '9', ';'] + b);
    }
    lemma_one_reference(a, seq!['#', '3', '9', ';'] + b, "&amp;"@, "&"@);
    lemma_prefix_differs("&amp;"@, seq!['&'] + (seq!['#', '3', '9', ';'] + b), 1);
    assert(s == a + seq!['&'] + (seq!['#', '3', '9', ';'] + b));
    assert(!(seq!['#', '3', '9', ';'] + b).contains('&')) by {
        lemma_no_ampersand(Seq::empty(), seq!['#', '3', '9', ';'], b);
        assert(Seq::<char>::empty() + seq!['#', '3', '9', ';'] + b == seq!['#', '3', '9', ';'] + b);
    }
    lemma_one_reference(a, seq!['#', '3', '9', ';'] + b, "&lt;"@, "<"@);
    lemma_prefix_differs("&lt;"@, seq!['&'] + (seq!['#', '3', '9', ';'] + b), 1);
    assert(s == a + seq!['&'] + (seq!['#', '3', '9', ';'] + b));
    assert(!(seq!['#', '3', '9', ';'] + b).contains('&')) by {
        lemma_no_ampersand(Seq::empty(), seq!['#', '3', '9', ';'], b);
        assert(Seq::<char>::empty() + seq!['#', '3', '9', ';'] + b == seq!['#', '3', '9', ';'] + b);
    }
    lemma_one_reference(a, seq!['#', '3', '9', ';'] + b, "&gt;"@, ">"@);
    lemma_prefix_differs("&gt;"@, seq!['&'] + (seq!['#', '3', '9', ';'] + b), 1);
    assert(s == a + seq!['&'] + (seq!['#', '3', '9', ';'] + b));
    assert(!(seq!['#', '3', '9', ';'] + b).contains('&')) by {
        lemma_no_ampersand(Seq::empty(), seq!['#', '3', '9', ';'], b);
        assert(Seq::<char>::empty() + seq!['#', '3', '9', ';'] + b == seq!['#', '3', '9', ';'] + b);
    }
    lemma_one_reference(a, seq!['#', '3', '9', ';'] + b, "&quot;"@, "\""@);
    lemma_prefix_differs("&quot;"@, seq!['&'] + (seq!['#', '3', '9', ';'] + b), 1);
    assert(s == a + seq!['&'] + (seq!['#', '3', '9', ';'] + b));
    assert(!(seq!['#', '3', '9', ';'] + b).contains('&')) by {
        lemma_no_ampersand(Seq::empty(), seq!['#', '3', '9', ';'], b);
        assert(Seq::<char>::empty() + seq!['#', '3', '9', ';'] + b == seq!['#', '3', '9', ';'] + b);
    }
    lemma_one_reference(a, seq!['#', '3', '9', ';'] + b, "&#39;"@, "'"@);
    let tail = seq!['&'] + (seq!['#', '3', '9', ';'] + b);
    assert("&#39;"@.is_prefix_of(tail)) by {
        assert(tail.subrange(0, "&#39;"@.len() as int) == "&#39;"@);
    }
    assert(tail.skip("&#39;"@.len() as int) == b);
    let s = a + "'"@ + (b);
    assert(!s.contains('&')) by {
        lemma_no_ampersand(a, "'"@, b);
    }
    assert(s == a + "'"@ + b);
}

proof fn lemma_decoded_ampersand(a: Seq<char>, b: Seq<char>)
    requires
        !a.contains('&'),
        !b.contains('&'),
        !b.contains(';'),
    ensures
        decoded(a + "&amp;"@ + b) == a + "&"@ + b,
{
    reveal_strlit("&nbsp;");
    reveal_strlit("&amp;");
    reveal_strlit("&lt;");
    reveal_strlit("&gt;");
    reveal_strlit("&quot;");
    reveal_strlit("&#39;");
    reveal_strlit("&amp;");
    reveal_strlit("&");
    reveal_strlit(" ");
    reveal_strlit("&");
    reveal_strlit("<");
    reveal_strlit(">");
    reveal_strlit("\"");
    reveal_strlit("'");
    let s = a + "&amp;"@ + b;
    assert(s == a + seq!['&'] + (seq!['a', 'm', 'p', ';'] + b));
    assert(!(seq!['a', 'm', 'p', ';'] + b).contains('&')) by {
        lemma_no_ampersand(Seq::empty(), seq!['a', 'm', 'p', ';'], b);
        assert(Seq::<char>::empty() + seq!['a', 'm', 'p', ';'] + b == seq!['a', 'm', 'p', ';'] + b);
    }
    lemma_one_reference(a, seq!['a', 'm', 'p', ';'] + b, "&nbsp;"@, " "@);
    lemma_prefix_differs("&nbsp;"@, seq!['&'] + (seq!['a', 'm', 'p', ';'] + b), 1);
    assert(s == a + seq!['&'] + (seq!['a', 'm', 'p', ';'] + b));
    assert(!(seq!['a', 'm', 'p', ';'] + b).contains('&')) by {
        lemma_no_ampersand(Seq::empty(), seq!['a', 'm', 'p', ';'], b);
        assert(Seq::<char>::empty() + seq!['a', 'm', 'p', ';'] + b == seq!['a', 'm', 'p', ';'] + b);
    }
    lemma_one_reference(a, seq!['a', 'm', 'p', ';'] + b, "&amp;"@, "&"@);
    let tail = seq!['&'] + (seq!['a', 'm', 'p', ';'] + b);
    assert("&amp;"@.is_prefix_of(tail)) by {
        assert(tail.subrange(0, "&amp;"@.len() as int) == "&amp;"@);
    }
    assert(tail.skip("&amp;"@.len() as int) == b);
    let s = a + "&"@ + (b);
    assert(s == a + seq!['&'] + (b));
    assert(!(b).contains('&')) by {
        lemma_no_ampersand(Seq::empty(), Seq::empty(), b);
        assert(Seq::<char>::empty() + Seq::<char>::empty() + b == b);
    }
    lemma_one_reference(a, b, "&lt;"@, "<"@);
    if "&lt;"@.is_prefix_of(seq!['&'] + (b)) {
        let k = "&lt;"@.len() - 1;
        assert((seq!['&'] + (b)).subrange(0, "&lt;"@.len() as int)[k] == ';');
        assert(b[k - 1] == ';');
    }
    assert(s == a + seq!['&'] + (b));
    assert(!(b).contains('&')) by {
        lemma_no_ampersand(Seq::empty(), Seq::empty(), b);
        assert(Seq::<char>::empty() + Seq::<char>::empty() + b == b);
    }
    lemma_one_reference(a, b, "&gt;"@, ">"@);
    if "&gt;"@.is_prefix_of(seq!['&'] + (b)) {
        let k = "&gt;"@.len() - 1;
        assert((seq!['&'] + (b)).subrange(0, "&gt;"@.len() as int)[k] == ';');
        assert(b[k - 1] == ';');
    }
    assert(s == a + seq!['&'] + (b));
    assert(!(b).contains('&')) by {
        lemma_no_ampersand(Seq::empty(), Seq::empty(), b);
        assert(Seq::<char>::empty() + Seq::<char>::empty() + b == b);
    }
    lemma_one_reference(a, b, "&quot;"@, "\""@);
    if "&quot;"@.is_prefix_of(seq!['&'] + (b)) {
        let k = "&quot;"@.len() - 1;
        assert((seq!['&'] + (b)).subrange(0, "&quot;"@.len() as int)[k] == ';');
        assert(b[k - 1] == ';');
    }
    assert(s == a + seq!['&'] + (b));
    assert(!(b).contains('&')) by {
        lemma_no_ampersand(Seq::empty(), Seq::empty(), b);
        assert(Seq::<char>::empty() + Seq::<char>::empty() + b == b);
    }
    lemma_one_reference(a, b, "&#39;"@, "'"@);
    if "&#39;"@.is_prefix_of(seq!['&'] + (b)) {
        let k = "&#39;"@.len() - 1;
        assert((seq!['&'] + (b)).subrange(0, "&#39;"@.len() as int)[k] == ';');
        assert(b[k - 1] == ';');
    }
    assert(s == a + "&"@ + b);
}

proof fn lemma_decoded_twice_lt(a: Seq<char>, b: Seq<char>)
    requires
        !a.contains('&'),
        !b.contains('&'),
    ensures
        decoded(a + "&amp;lt;"@ + b) == a + "<"@ + b,
{
    reveal_strlit("&nbsp;");
    reveal_strlit("&amp;");
    reveal_strlit("&lt;");
    reveal_strlit("&gt;");
    reveal_strlit("&quot;");
    reveal_strlit("&#39;");
    reveal_strlit("&amp;lt;");
    reveal_strlit("<");
    reveal_strlit(" ");
    reveal_strlit("&");
    reveal_strlit("<");
    reveal_strlit(">");
    reveal_strlit("\"");
    reveal_strlit("'");
    let s = a + "&amp;lt;"@ + b;
    assert(s == a + seq!['&'] + (seq!['a', 'm', 'p', ';', 'l', 't', ';'] + b));
    assert(!(seq!['a', 'm', 'p', ';', 'l', 't', ';'] + b).contains('&')) by {
        lemma_no_ampersand(Seq::empty(), seq!['a', 'm', 'p', ';', 'l', 't', ';'], b);
        assert(Seq::<char>::empty() + seq!['a', 'm', 'p', ';', 'l', 't', ';'] + b == seq!['a', 'm', 'p', ';', 'l', 't', ';'] + b);
    }
    lemma_one_reference(a, seq!['a', 'm', 'p', ';', 'l', 't', ';'] + b, "&nbsp;"@, " "@);
    lemma_prefix_differs("&nbsp;"@, seq!['&'] + (seq!['a', 'm', 'p', ';', 'l', 't', ';'] + b), 1);
    assert(s == a + seq!['&'] + (seq!['a', 'm', 'p', ';', 'l', 't', ';'] + b));
    assert(!(seq!['a', 'm', 'p', ';', 'l', 't', ';'] + b).contains('&')) by {
        lemma_no_ampersand(Seq::empty(), seq!['a', 'm', 'p', ';', 'l', 't', ';'], b);
        assert(Seq::<char>::empty() + seq!['a', 'm', 'p', ';', 'l', 't', ';'] + b == seq!['a', 'm', 'p', ';', 'l', 't', ';'] + b);
    }
    lemma_one_reference(a, seq!['a', 'm', 'p', ';', 'l', 't', ';'] + b, "&amp;"@, "&"@);
    let tail = seq!['&'] + (seq!['a', 'm', 'p', ';', 'l', 't', ';'] + b);
    assert("&amp;"@.is_prefix_of(tail)) by {
        assert(tail.subrange(0, "&amp;"@.len() as int) == "&amp;"@);
    }
    assert(tail.skip("&amp;"@.len() as int) == seq!['l', 't', ';'] + b);
    let s = a + "&"@ + (seq!['l', 't', ';'] + b);
    assert(s == a + seq!['&'] + (seq!['l', 't', ';'] + b));
    assert(!(seq!['l', 't', ';'] + b).contains('&')) by {
        lemma_no_ampersand(Seq::empty(), seq!['l', 't', ';'], b);
        assert(Seq::<char>::empty() + seq!['l', 't', ';'] + b == seq!['l', 't', ';'] + b);
    }
    lemma_one_reference(a, seq!['l', 't', ';'] + b, "&lt;"@, "<"@);
    let tail = seq!['&'] + (seq!['l', 't', ';'] + b);
    assert("&lt;"@.is_prefix_of(tail)) by {
        assert(tail.subrange(0, "&lt;"@.len() as int) == "&lt;"@);
    }
    assert(tail.skip("&lt;"@.len() as int) == b);
    let s = a + "<"@ + (b);
    assert(!s.contains('&')) by {
        lemma_no_ampersand(a, "<"@, b);
    }
    text::lemma_replaced_absent(s, "&gt;"@, ">"@);
    text::lemma_replaced_absent(s, "&quot;"@, "\""@);
    text::lemma_replaced_absent(s, "&#39;"@, "'"@);
    assert(s == a + "<"@ + b);
}

proof fn lemma_decoded_twice_gt(a: Seq<char>, b: Seq<char>)
    requires
        !a.contains('&'),
        !b.contains('&'),
    ensures
        decoded(a + "&amp;gt;"@ + b) == a + ">"@ + b,
{
    reveal_strlit("&nbsp;");
    reveal_strlit("&amp;");
    reveal_strlit("&lt;");
    reveal_strlit("&gt;");
    reveal_strlit("&quot;");
    reveal_strlit("&#39;");
    reveal_strlit("&amp;gt;");
    reveal_strlit(">");
    reveal_strlit(" ");
    reveal_strlit("&");
    reveal_strlit("<");
    reveal_strlit(">");
    reveal_strlit("\"");
    reveal_strlit("'");
    let s = a + "&amp;gt;"@ + b;
    assert(s == a + seq!['&'] + (seq!['a', 'm', 'p', ';', 'g', 't', ';'] + b));
    assert(!(seq!['a', 'm', 'p', ';', 'g', 't', ';'] + b).contains('&')) by {
        lemma_no_ampersand(Seq::empty(), seq!['a', 'm', 'p', ';', 'g', 't', ';'], b);
        assert(Seq::<char>::empty() + seq!['a', 'm', 'p', ';', 'g', 't', ';'] + b == seq!['a', 'm', 'p', ';', 'g', 't', ';'] + b);
    }
    lemma_one_reference(a, seq!['a', 'm', 'p', ';', 'g', 't', ';'] + b, "&nbsp;"@, " "@);
    lemma_prefix_differs("&nbsp;"@, seq!['&'] + (seq!['a', 'm', 'p', ';', 'g', 't', ';'] + b), 1);
    assert(s == a + seq!['&'] + (seq!['a', 'm', 'p', ';', 'g', 't', ';'] + b));
    assert(!(seq!['a', 'm', 'p', ';', 'g', 't', ';'] + b).contains('&')) by {
        lemma_no_ampersand(Seq::empty(), seq!['a', 'm', 'p', ';', 'g', 't', ';'], b);
        assert(Seq::<char>::empty() + seq!['a', 'm', 'p', ';', 'g', 't', ';'] + b == seq!['a', 'm', 'p', ';', 'g', 't', ';'] + b);
    }
    lemma_one_reference(a, seq!['a', 'm', 'p', ';', 'g', 't', ';'] + b, "&amp;"@, "&"@);
    let tail = seq!['&'] + (seq!['a', 'm', 'p', ';', 'g', 't', ';'] + b);
    assert("&amp;"@.is_prefix_of(tail)) by {
        assert(tail.subrange(0, "&amp;"@.len() as int) == "&amp;"@);
    }
    assert(tail.skip("&amp;"@.len() as int) == seq!['g', 't', ';'] + b);
    let s = a + "&"@ + (seq!['g', 't', ';'] + b);
    assert(s == a + seq!['&'] + (seq!['g', 't', ';'] + b));
    assert(!(seq!['g', 't', ';'] + b).contains('&')) by {
        lemma_no_ampersand(Seq::empty(), seq!['g', 't', ';'], b);
        assert(Seq::<char>::empty() + seq!['g', 't', ';'] + b == seq!['g', 't', ';'] + b);
    }
    lemma_one_reference(a, seq!['g', 't', ';'] + b, "&lt;"@, "<"@);
    lemma_prefix_differs("&lt;"@, seq!['&'] + (seq!['g', 't', ';'] + b), 1);
    assert(s == a + seq!['&'] + (seq!['g', 't', ';'] + b));
    assert(!(seq!['g', 't', ';'] + b).contains('&')) by {
        lemma_no_ampersand(Seq::empty(), seq!['g', 't', ';'], b);
        assert(Seq::<char>::empty() + seq!['g', 't', ';'] + b == seq!['g', 't', ';'] + b);
    }
    lemma_one_reference(a, seq!['g', 't', ';'] + b, "&gt;"@, ">"@);
    let tail = seq!['&'] + (seq!['g', 't', ';'] + b);
    assert("&gt;"@.is_prefix_of(tail)) by {
        assert(tail.subrange(0, "&gt;"@.len() as int) == "&gt;"@);
    }
    assert(tail.skip("&gt;"@.len() as int) == b);
    let s = a + ">"@ + (b);
    assert(!s.contains('&')) by {
        lemma_no_ampersand(a, ">"@, b);
    }
    text::lemma_replaced_absent(s, "&quot;"@, "\""@);
    text::lemma_replaced_absent(s, "&#39;"@, "'"@);
    assert(s == a + ">"@ + b);
}

proof fn lemma_decoded_twice_quot(a: Seq<char>, b: Seq<char>)
    requires
        !a.contains('&'),
        !b.contains('&'),
    ensures
        decoded(a + "&amp;quot;"@ + b) == a + "\""@ + b,
{
    reveal_strlit("&nbsp;");
    reveal_strlit("&amp;");
    reveal_strlit("&lt;");
    reveal_strlit("&gt;");
    reveal_strlit("&quot;");
    reveal_strlit("&#39;");
    reveal_strlit("&amp;quot;");
    reveal_strlit("\"");
    reveal_strlit(" ");
    reveal_strlit("&");
    reveal_strlit("<");
    reveal_strlit(">");
    reveal_strlit("\"");
    reveal_strlit("'");
    let s = a + "&amp;quot;"@ + b;
    assert(s == a + seq!['&'] + (seq!['a', 'm', 'p', ';', 'q', 'u', 'o', 't', ';'] + b));
    assert(!(seq!['a', 'm', 'p', ';', 'q', 'u', 'o', 't', ';'] + b).contains('&')) by {
        lemma_no_ampersand(Seq::empty(), seq!['a', 'm', 'p', ';', 'q', 'u', 'o', 't', ';'], b);
        assert(Seq::<char>::empty() + seq!['a', 'm', 'p', ';', 'q', 'u', 'o', 't', ';'] + b == seq!['a', 'm', 'p', ';', 'q', 'u', 'o', 't', ';'] + b);
    }
    lemma_one_reference(a, seq!['a', 'm', 'p', ';', 'q', 'u', 'o', 't', ';'] + b, "&nbsp;"@, " "@);
    lemma_prefix_differs("&nbsp;"@, seq!['&'] + (seq!['a', 'm', 'p', ';', 'q', 'u', 'o', 't', ';'] + b), 1);
    assert(s == a + seq!['&'] + (seq!['a', 'm', 'p', ';', 'q', 'u', 'o', 't', ';'] + b));
    assert(!(seq!['a', 'm', 'p', ';', 'q', 'u', 'o', 't', ';'] + b).contains('&')) by {
        lemma_no_ampersand(Seq::empty(), seq!['a', 'm', 'p', ';', 'q', 'u', 'o', 't', ';'], b);
        assert(Seq::<char>::empty() + seq!['a', 'm', 'p', ';', 'q', 'u', 'o', 't', ';'] + b == seq!['a', 'm', 'p', ';', 'q', 'u', 'o', 't', ';'] + b);
    }
    lemma_one_reference(a, seq!['a', 'm', 'p', ';', 'q', 'u', 'o', 't', ';'] + b, "&amp;"@, "&"@);
    let tail = seq!['&'] + (seq!['a', 'm', 'p', ';', 'q', 'u', 'o', 't', ';'] + b);
    assert("&amp;"@.is_prefix_of(tail)) by {
        assert(tail.subrange(0, "&amp;"@.len() as int) == "&amp;"@);
    }
    assert(tail.skip("&amp;"@.len() as int) == seq!['q', 'u', 'o', 't', ';'] + b);
    let s = a + "&"@ + (seq!['q', 'u', 'o', 't', ';'] + b);
    assert(s == a + seq!['&'] + (seq!['q', 'u', 'o', 't', ';'] + b));
    assert(!(seq!['q', 'u', 'o', 't', ';'] + b).contains('&')) by {
        lemma_no_ampersand(Seq::empty(), seq!['q', 'u', 'o', 't', ';'], b);
        assert(Seq::<char>::empty() + seq!['q', 'u', 'o', 't', ';'] + b == seq!['q', 'u', 'o', 't', ';'] + b);
    }
    lemma_one_reference(a, seq!['q', 'u', 'o', 't', ';'] + b, "&lt;"@, "<"@);
    lemma_prefix_differs("&lt;"@, seq!['&'] + (seq!['q', 'u', 'o', 't', ';'] + b), 1);
    assert(s == a + seq!['&'] + (seq!['q', 'u', 'o', 't', ';'] + b));
    assert(!(seq!['q', 'u', 'o', 't', ';'] + b).contains('&')) by {
        lemma_no_ampersand(Seq::empty(), seq!['q', 'u', 'o', 't', ';'], b);
        assert(Seq::<char>::empty() + seq!['q', 'u', 'o', 't', ';'] + b == seq!['q', 'u', 'o', 't', ';'] + b);
    }
    lemma_one_reference(a, seq!['q', 'u', 'o', 't', ';'] + b, "&gt;"@, ">"@);
    lemma_prefix_differs("&gt;"@, seq!['&'] + (seq!['q', 'u', 'o', 't', ';'] + b), 1);
    assert(s == a + seq!['&'] + (seq!['q', 'u', 'o', 't', ';'] + b));
    assert(!(seq!['q', 'u', 'o', 't', ';'] + b).contains('&')) by {
        lemma_no_ampersand(Seq::empty(), seq!['q', 'u', 'o', 't', ';'], b);
        assert(Seq::<char>::empty() + seq!['q', 'u', 'o', 't', ';'] + b == seq!['q', 'u', 'o', 't', ';'] + b);
    }
    lemma_one_reference(a, seq!['q', 'u', 'o', 't', ';'] + b, "&quot;"@, "\""@);
    let tail = seq!['&'] + (seq!['q', 'u', 'o', 't', ';'] + b);
    assert("&quot;"@.is_prefix_of(tail)) by {
        assert(tail.subrange(0, "&quot;"@.len() as int) == "&quot;"@);
    }
    assert(tail.skip("&quot;"@.len() as int) == b);
    let s = a + "\""@ + (b);
    assert(!s.contains('&')) by {
        lemma_no_ampersand(a, "\""@, b);
    }
    text::lemma_replaced_absent(s, "&#39;"@, "'"@);
    assert(s == a + "\""@ + b);
}

proof fn lemma_decoded_twice_apostrophe(a: Seq<char>, b: Seq<char>)
    requires
        !a.contains('&'),
        !b.contains('&'),
    ensures
        decoded(a + "&amp;#39;"@ + b) == a + "'"@ + b,
{
    reveal_strlit("&nbsp;");
    reveal_strlit("&amp;");
    reveal_strlit("&lt;");
    reveal_strlit("&gt;");
    reveal_strlit("&quot;");
    reveal_strlit("&#39;");
    reveal_strlit("&amp;#39;");
    reveal_strlit("'");
    reveal_strlit(" ");
    reveal_strlit("&");
    reveal_strlit("<");
    reveal_strlit(">");
    reveal_strlit("\"");
    reveal_strlit("'");
    let s = a + "&amp;#39;"@ + b;
    assert(s == a + seq!['&'] + (seq!['a', 'm', 'p', ';', '#', '3', '9', ';'] + b));
    assert(!(seq!['a', 'm', 'p', ';', '#', '3', '9', ';'] + b).contains('&')) by {
        lemma_no_ampersand(Seq::empty(), seq!['a', 'm', 'p', ';', '#', '3', '9', ';'], b);
        assert(Seq::<char>::empty() + seq!['a', 'm', 'p', ';', '#', '3', '9', ';'] + b == seq!['a', 'm', 'p', ';', '#', '3', '9', ';'] + b);
    }
    lemma_one_reference(a, seq!['a', 'm', 'p', ';', '#', '3', '9', ';'] + b, "&nbsp;"@, " "@);
    lemma_prefix_differs("&nbsp;"@, seq!['&'] + (seq!['a', 'm', 'p', ';', '#', '3', '9', ';'] + b), 1);
    assert(s == a + seq!['&'] + (seq!['a', 'm', 'p', ';', '#', '3', '9', ';'] + b));
    assert(!(seq!['a', 'm', 'p', ';', '#', '3', '9', ';'] + b).contains('&')) by {
        lemma_no_ampersand(Seq::empty(), seq!['a', 'm', 'p', ';', '#', '3', '9', ';'], b);
        assert(Seq::<char>::empty() + seq!['a', 'm', 'p', ';', '#', '3', '9', ';'] + b == seq!['a', 'm', 'p', ';', '#', '3', '9', ';'] + b);
    }
    lemma_one_reference(a, seq!['a', 'm', 'p', ';', '#', '3', '9', ';'] + b, "&amp;"@, "&"@);
    let tail = seq!['&'] + (seq!['a', 'm', 'p', ';', '#', '3', '9', ';'] + b);
    assert("&amp;"@.is_prefix_of(tail)) by {
        assert(tail.subrange(0, "&amp;"@.len() as int) == "&amp;"@);
    }
    assert(tail.skip("&amp;"@.len() as int) == seq!['#', '3', '9', ';'] + b);
    let s = a + "&"@ + (seq!['#', '3', '9', ';'] + b);
    assert(s == a + seq!['&'] + (seq!['#', '3', '9', ';'] + b));
    assert(!(seq!['#', '3', '9', ';'] + b).contains('&')) by {
        lemma_no_ampersand(Seq::empty(), seq!['#', '3', '9', ';'], b);
        assert(Seq::<char>::empty() + seq!['#', '3', '9', ';'] + b == seq!['#', '3', '9', ';'] + b);
    }
    lemma_one_reference(a, seq!['#', '3', '9', ';'] + b, "&lt;"@, "<"@);
    lemma_prefix_differs("&lt;"@, seq!['&'] + (seq!['#', '3', '9', ';'] + b), 1);
    assert(s == a + seq!['&'] + (seq!['#', '3', '9', ';'] + b));
    assert(!(seq!['#', '3', '9', ';'] + b).contains('&')) by {
        lemma_no_ampersand(Seq::empty(), seq!['#', '3', '9', ';'], b);
        assert(Seq::<char>::empty() + seq!['#', '3', '9', ';'] + b == seq!['#', '3', '9', ';'] + b);
    }
    lemma_one_reference(a, seq!['#', '3', '9', ';'] + b, "&gt;"@, ">"@);
    lemma_prefix_differs("&gt;"@, seq!['&'] + (seq!['#', '3', '9', ';'] + b), 1);
    assert(s == a + seq!['&'] + (seq!['#', '3', '9', ';'] + b));
    assert(!(seq!['#', '3', '9', ';'] + b).contains('&')) by {
        lemma_no_ampersand(Seq::empty(), seq!['#', '3', '9', ';'], b);
        assert(Seq::<char>::empty() + seq!['#', '3', '9', ';'] + b == seq!['#', '3', '9', ';'] + b);
    }
    lemma_one_reference(a, seq!['#', '3', '9', ';'] + b, "&quot;"@, "\""@);
    lemma_prefix_differs("&quot;"@, seq!['&'] + (seq!['#', '3', '9', ';'] + b), 1);
    assert(s == a + seq!['&'] + (seq!['#', '3', '9', ';'] + b));
    assert(!(seq!['#', '3', '9', ';'] + b).contains('&')) by {
        lemma_no_ampersand(Seq::empty(), seq!['#', '3', '9', ';'], b);
        assert(Seq::<char>::empty() + seq!['#', '3', '9', ';'] + b == seq!['#', '3', '9', ';'] + b);
    }
    lemma_one_reference(a, seq!['#', '3', '9', ';'] + b, "&#39;"@, "'"@);
    let tail = seq!['&'] + (seq!['#', '3', '9', ';'] + b);
    assert("&#39;"@.is_prefix_of(tail)) by {
        assert(tail.subrange(0, "&#39;"@.len() as int) == "&#39;"@);
    }
    assert(tail.skip("&#39;"@.len() as int) == b);
    let s = a + "'"@ + (b);
    assert(!s.contains('&')) by {
        lemma_no_ampersand(a, "'"@, b);
    }
    assert(s == a + "'"@ + b);
}

proof fn lemma_decoded_twice_nbsp(a: Seq<char>, b: Seq<char>)
    requires
        !a.contains('&'),
        !b.contains('&'),
    ensures
        decoded(a + "&amp;nbsp;"@ + b) == a + "&nbsp;"@ + b,
{
    reveal_strlit("&nbsp;");
    reveal_strlit("&amp;");
    reveal_strlit("&lt;");
    reveal_strlit("&gt;");
    reveal_strlit("&quot;");
    reveal_strlit("&#39;");
    reveal_strlit("&amp;nbsp;");
    reveal_strlit("&nbsp;");
    reveal_strlit(" ");
    reveal_strlit("&");
    reveal_strlit("<");
    reveal_strlit(">");
    reveal_strlit("\"");
    reveal_strlit("'");
    let s = a + "&amp;nbsp;"@ + b;
    assert(s == a + seq!['&'] + (seq!['a', 'm', 'p', ';', 'n', 'b', 's', 'p', ';'] + b));
    assert(!(seq!['a', 'm', 'p', ';', 'n', 'b', 's', 'p', ';'] + b).contains('&')) by {
        lemma_no_ampersand(Seq::empty(), seq!['a', 'm', 'p', ';', 'n', 'b', 's', 'p', ';'], b);
        assert(Seq::<char>::empty() + seq!['a', 'm', 'p', ';', 'n', 'b', 's', 'p', ';'] + b == seq!['a', 'm', 'p', ';', 'n', 'b', 's', 'p', ';'] + b);
    }
    lemma_one_reference(a, seq!['a', 'm', 'p', ';', 'n', 'b', 's', 'p', ';'] + b, "&nbsp;"@, " "@);
    lemma_prefix_differs("&nbsp;"@, seq!['&'] + (seq!['a', 'm', 'p', ';', 'n', 'b', 's', 'p', ';'] + b), 1);
    assert(s == a + seq!['&'] + (seq!['a', 'm', 'p', ';', 'n', 'b', 's', 'p', ';'] + b));
    assert(!(seq!['a', 'm', 'p', ';', 'n', 'b', 's', 'p', ';'] + b).contains('&')) by {
        lemma_no_ampersand(Seq::empty(), seq!['a', 'm', 'p', ';', 'n', 'b', 's', 'p', ';'], b);
        assert(Seq::<char>::empty() + seq!['a', 'm', 'p', ';', 'n', 'b', 's', 'p', ';'] + b == seq!['a', 'm', 'p', ';', 'n', 'b', 's', 'p', ';'] + b);
    }
    lemma_one_reference(a, seq!['a', 'm', 'p', ';', 'n', 'b', 's', 'p', ';'] + b, "&amp;"@, "&"@);
    let tail = seq!['&'] + (seq!['a', 'm', 'p', ';', 'n', 'b', 's', 'p', ';'] + b);
    assert("&amp;"@.is_prefix_of(tail)) by {
        assert(tail.subrange(0, "&amp;"@.len() as int) == "&amp;"@);
    }
    assert(tail.skip("&amp;"@.len() as int) == seq!['n', 'b', 's', 'p', ';'] + b);
    let s = a + "&"@ + (seq!['n', 'b', 's', 'p', ';'] + b);
    assert(s == a + seq!['&'] + (seq!['n', 'b', 's', 'p', ';'] + b));
    assert(!(seq!['n', 'b', 's', 'p', ';'] + b).contains('&')) by {
        lemma_no_ampersand(Seq::empty(), seq!['n', 'b', 's', 'p', ';'], b);
        assert(Seq::<char>::empty() + seq!['n', 'b', 's', 'p', ';'] + b == seq!['n', 'b', 's', 'p', ';'] + b);
    }
    lemma_one_reference(a, seq!['n', 'b', 's', 'p', ';'] + b, "&lt;"@, "<"@);
    lemma_prefix_differs("&lt;"@, seq!['&'] + (seq!['n', 'b', 's', 'p', ';'] + b), 1);
    assert(s == a + seq!['&'] + (seq!['n', 'b', 's', 'p', ';'] + b));
    assert(!(seq!['n', 'b', 's', 'p', ';'] + b).contains('&')) by {
        lemma_no_ampersand(Seq::empty(), seq!['n', 'b', 's', 'p', ';'], b);
        assert(Seq::<char>::empty() + seq!['n', 'b', 's', 'p', ';'] + b == seq!['n', 'b', 's', 'p', ';'] + b);
    }
    lemma_one_reference(a, seq!['n', 'b', 's', 'p', ';'] + b, "&gt;"@, ">"@);
    lemma_prefix_differs("&gt;"@, seq!['&'] + (seq!['n', 'b', 's', 'p', ';'] + b), 1);
    assert(s == a + seq!['&'] + (seq!['n', 'b', 's', 'p', ';'] + b));
    assert(!(seq!['n', 'b', 's', 'p', ';'] + b).contains('&')) by {
        lemma_no_ampersand(Seq::empty(), seq!['n', 'b', 's', 'p', ';'], b);
        assert(Seq::<char>::empty() + seq!['n', 'b', 's', 'p', ';'] + b == seq!['n', 'b', 's', 'p', ';'] + b);
    }
    lemma_one_reference(a, seq!['n', 'b', 's', 'p', ';'] + b, "&quot;"@, "\""@);
    lemma_prefix_differs("&quot;"@, seq!['&'] + (seq!['n', 'b', 's', 'p', ';'] + b), 1);
    assert(s == a + seq!['&'] + (seq!['n', 'b', 's', 'p', ';'] + b));
    assert(!(seq!['n', 'b', 's', 'p', ';'] + b).contains('&')) by {
        lemma_no_ampersand(Seq::empty(), seq!['n', 'b', 's', 'p', ';'], b);
        assert(Seq::<char>::empty() + seq!['n', 'b', 's', 'p', ';'] + b == seq!['n', 'b', 's', 'p', ';'] + b);
    }
    lemma_one_reference(a, seq!['n', 'b', 's', 'p', ';'] + b, "&#39;"@, "'"@);
    lemma_prefix_differs("&#39;"@, seq!['&'] + (seq!['n', 'b', 's', 'p', ';'] + b), 1);
    assert(s == a + "&nbsp;"@ + b);
}

proof fn lemma_decoded_twice_ampersand(a: Seq<char>, b: Seq<char>)
    requires
        !a.contains('&'),
        !b.contains('&'),
    ensures
        decoded(a + "&amp;amp;"@ + b) == a + "&amp;"@ + b,
{
    reveal_strlit("&nbsp;");
    reveal_strlit("&amp;");
    reveal_strlit("&lt;");
    reveal_strlit("&gt;");
    reveal_strlit("&quot;");
    reveal_strlit("&#39;");
    reveal_strlit("&amp;amp;");
    reveal_strlit("&amp;");
    reveal_strlit(" ");
    reveal_strlit("&");
    reveal_strlit("<");
    reveal_strlit(">");
    reveal_strlit("\"");
    reveal_strlit("'");
    let s = a + "&amp;amp;"@ + b;
    assert(s == a + seq!['&'] + (seq!['a', 'm', 'p', ';', 'a', 'm', 'p', ';'] + b));
    assert(!(seq!['a', 'm', 'p', ';', 'a', 'm', 'p', ';'] + b).contains('&')) by {
        lemma_no_ampersand(Seq::empty(), seq!['a', 'm', 'p', ';', 'a', 'm', 'p', ';'], b);
        assert(Seq::<char>::empty() + seq!['a', 'm', 'p', ';', 'a', 'm', 'p', ';'] + b == seq!['a', 'm', 'p', ';', 'a', 'm', 'p', ';'] + b);
    }
    lemma_one_reference(a, seq!['a', 'm', 'p', ';', 'a', 'm', 'p', ';'] + b, "&nbsp;"@, " "@);
    lemma_prefix_differs("&nbsp;"@, seq!['&'] + (seq!['a', 'm', 'p', ';', 'a', 'm', 'p', ';'] + b), 1);
    assert(s == a + seq!['&'] + (seq!['a', 'm', 'p', ';', 'a', 'm', 'p', ';'] + b));
    assert(!(seq!['a', 'm', 'p', ';', 'a', 'm', 'p', ';'] + b).contains('&')) by {
        lemma_no_ampersand(Seq::empty(), seq!['a', 'm', 'p', ';', 'a', 'm', 'p', ';'], b);
        assert(Seq::<char>::empty() + seq!['a', 'm', 'p', ';', 'a', 'm', 'p', ';'] + b == seq!['a', 'm', 'p', ';', 'a', 'm', 'p', ';'] + b);
    }
    lemma_one_reference(a, seq!['a', 'm', 'p', ';', 'a', 'm', 'p', ';'] + b, "&amp;"@, "&"@);
    let tail = seq!['&'] + (seq!['a', 'm', 'p', ';', 'a', 'm', 'p', ';'] + b);
    assert("&amp;"@.is_prefix_of(tail)) by {
        assert(tail.subrange(0, "&amp;"@.len() as int) == "&amp;"@);
    }
    assert(tail.skip("&amp;"@.len() as int) == seq!['a', 'm', 'p', ';'] + b);
    let s = a + "&"@ + (seq!['a', 'm', 'p', ';'] + b);
    assert(s == a + seq!['&'] + (seq!['a', 'm', 'p', ';'] + b));
    assert(!(seq!['a', 'm', 'p', ';'] + b).contains('&')) by {
        lemma_no_ampersand(Seq::empty(), seq!['a', 'm', 'p', ';'], b);
        assert(Seq::<char>::empty() + seq!['a', 'm', 'p', ';'] + b == seq!['a', 'm', 'p', ';'] + b);
    }
    lemma_one_reference(a, seq!['a', 'm', 'p', ';'] + b, "&lt;"@, "<"@);
    lemma_prefix_differs("&lt;"@, seq!['&'] + (seq!['a', 'm', 'p', ';'] + b), 1);
    assert(s == a + seq!['&'] + (seq!['a', 'm', 'p', ';'] + b));
    assert(!(seq!['a', 'm', 'p', ';'] + b).contains('&')) by {
        lemma_no_ampersand(Seq::empty(), seq!['a', 'm', 'p', ';'], b);
        assert(Seq::<char>::empty() + seq!['a', 'm', 'p', ';'] + b == seq!['a', 'm', 'p', ';'] + b);
    }
    lemma_one_reference(a, seq!['a', 'm', 'p', ';'] + b, "&gt;"@, ">"@);
    lemma_prefix_differs("&gt;"@, seq!['&'] + (seq!['a', 'm', 'p', ';'] + b), 1);
    assert(s == a + seq!['&'] + (seq!['a', 'm', 'p', ';'] + b));
    assert(!(seq!['a', 'm', 'p', ';'] + b).contains('&')) by {
        lemma_no_ampersand(Seq::empty(), seq!['a', 'm', 'p', ';'], b);
        assert(Seq::<char>::empty() + seq!['a', 'm', 'p', ';'] + b == seq!['a', 'm', 'p', ';'] + b);
    }
    lemma_one_reference(a, seq!['a', 'm', 'p', ';'] + b, "&quot;"@, "\""@);
    lemma_prefix_differs("&quot;"@, seq!['&'] + (seq!['a', 'm', 'p', ';'] + b), 1);
    assert(s == a + seq!['&'] + (seq!['a', 'm', 'p', ';'] + b));
    assert(!(seq!['a', 'm', 'p', ';'] + b).contains('&')) by {
        lemma_no_ampersand(Seq::empty(), seq!['a', 'm', 'p', ';'], b);
        assert(Seq::<char>::empty() + seq!['a', 'm', 'p', ';'] + b == seq!['a', 'm', 'p', ';'] + b);
    }
    lemma_one_reference(a, seq!['a', 'm', 'p', ';'] + b, "&#39;"@, "'"@);
    lemma_prefix_differs("&#39;"@, seq!['&'] + (seq!['a', 'm', 'p', ';'] + b), 1);
    assert(s == a + "&amp;"@ + b);
}

proof fn lemma_same_when_decoded(x: Seq<char>, a: Seq<char>, c: Seq<char>, b: Seq<char>)
    requires
        decoded(x) == a + c + b,
        !a.contains('&'),
        !c.contains('&'),
        !b.contains('&'),
    ensures
        normalized(x) == normalized(a + c + b),
{
    lemma_no_ampersand(a, c, b);
    lemma_decoded_absent(a + c + b);
}

proof fn lemma_normalized_nbsp(a: Seq<char>, b: Seq<char>)
    requires
        !a.contains('&'),
        !b.contains('&'),
    ensures
        normalized(a + "&nbsp;"@ + b) == normalized(a + " "@ + b),
{
    reveal_strlit(" ");
    lemma_decoded_nbsp(a, b);
    lemma_same_when_decoded(a + "&nbsp;"@ + b, a, " "@, b);
}

proof fn lemma_normalized_lt(a: Seq<char>, b: Seq<char>)
    requires
        !a.contains('&'),
        !b.contains('&'),
    ensures
        normalized(a + "&lt;"@ + b) == normalized(a + "<"@ + b),
{
    reveal_strlit("<");
    lemma_decoded_lt(a, b);
    lemma_same_when_decoded(a + "&lt;"@ + b, a, "<"@, b);
}

proof fn lemma_normalized_gt(a: Seq<char>, b: Seq<char>)
    requires
        !a.contains('&'),
        !b.contains('&'),
    ensures
        normalized(a + "&gt;"@ + b) == normalized(a + ">"@ + b),
{
    reveal_strlit(">");
    lemma_decoded_gt(a, b);
    lemma_same_when_decoded(a + "&gt;"@ + b, a, ">"@, b);
}

proof fn lemma_normalized_quot(a: Seq<char>, b: Seq<char>)
    requires
        !a.contains('&'),
        !b.contains('&'),
    ensures
        normalized(a + "&quot;"@ + b) == normalized(a + "\""@ + b),
{
    reveal_strlit("\"");
    lemma_decoded_quot(a, b);
    lemma_same_when_decoded(a + "&quot;"@ + b, a, "\""@, b);
}

proof fn lemma_normalized_apostrophe(a: Seq<char>, b: Seq<char>)
    requires
        !a.contains('&'),
        !b.contains('&'),
    ensures
        normalized(a + "&#39;"@ + b) == normalized(a + "'"@ + b),
{
    reveal_strlit("'");
    lemma_decoded_apostrophe(a, b);
    lemma_same_when_decoded(a + "&#39;"@ + b, a, "'"@, b);
}

proof fn lemma_normalized_twice_lt(a: Seq<char>, b: Seq<char>)
    requires
        !a.contains('&'),
        !b.contains('&'),
    ensures
        normalized(a + "&amp;lt;"@ + b) == normalized(a + "<"@ + b),
{
    reveal_strlit("<");
    lemma_decoded_twice_lt(a, b);
    lemma_same_when_decoded(a + "&amp;lt;"@ + b, a, "<"@, b);
}

proof fn lemma_normalized_twice_gt(a: Seq<char>, b: Seq<char>)
    requires
        !a.contains('&'),
        !b.contains('&'),
    ensures
        normalized(a + "&amp;gt;"@ + b) == normalized(a + ">"@ + b),
{
    reveal_strlit(">");
    lemma_decoded_twice_gt(a, b);
    lemma_same_when_decoded(a + "&amp;gt;"@ + b, a, ">"@, b);
}

proof fn lemma_normalized_twice_quot(a: Seq<char>, b: Seq<char>)
    requires
        !a.contains('&'),
        !b.contains('&'),
    ensures
        normalized(a + "&amp;quot;"@ + b) == normalized(a + "\""@ + b),
{
    reveal_strlit("\"");
    lemma_decoded_twice_quot(a, b);
    lemma_same_when_decoded(a + "&amp;quot;"@ + b, a, "\""@, b);
}

proof fn lemma_normalized_twice_apostrophe(a: Seq<char>, b: Seq<char>)
    requires
        !a.contains('&'),
        !b.contains('&'),
    ensures
        normalized(a + "&amp;#39;"@ + b) == normalized(a + "'"@ + b),
{
    reveal_strlit("'");
    lemma_decoded_twice_apostrophe(a, b);
    lemma_same_when_decoded(a + "&amp;#39;"@ + b, a, "'"@, b);
}

proof fn lemma_line_with_ampersand(a: Seq<char>, b: Seq<char>)
    requires
        !a.contains('&'),
        !b.contains('&'),
        !a.contains('\n'),
        !b.contains('\n'),
        !b.contains(';'),
    ensures
        normalized(a + "&amp;"@ + b) == text::join(text::words(a + "&"@ + b), " "@),
{
    assert(!"&"@.contains('\n')) by {
        reveal_strlit("&");
    }
    lemma_decoded_ampersand(a, b);
    lemma_no_line_end(a, "&"@, b);
    lemma_one_line(a + "&"@ + b);
}

proof fn lemma_line_with_twice_nbsp(a: Seq<char>, b: Seq<char>)
    requires
        !a.contains('&'),
        !b.contains('&'),
        !a.contains('\n'),
        !b.contains('\n'),
    ensures
        normalized(a + "&amp;nbsp;"@ + b) == text::join(text::words(a + "&nbsp;"@ + b), " "@),
{
    assert(!"&nbsp;"@.contains('\n')) by {
        reveal_strlit("&nbsp;");
    }
    lemma_decoded_twice_nbsp(a, b);
    lemma_no_line_end(a, "&nbsp;"@, b);
    lemma_one_line(a + "&nbsp;"@ + b);
}

proof fn lemma_line_with_twice_ampersand(a: Seq<char>, b: Seq<char>)
    requires
        !a.contains('&'),
        !b.contains('&'),
        !a.contains('\n'),
        !b.contains('\n'),
    ensures
        normalized(a + "&amp;amp;"@ + b) == text::join(text::words(a + "&amp;"@ + b), " "@),
{
    assert(!"&amp;"@.contains('\n')) by {
        reveal_strlit("&amp;");
    }
    lemma_decoded_twice_ampersand(a, b);
    lemma_no_line_end(a, "&amp;"@, b);
    lemma_one_line(a + "&amp;"@ + b);
}

/// The six character references stand for the characters that they name.
pub proof fn references_are_resolved(a: Seq<char>, b: Seq<char>)
    requires
        !a.contains('&'),
        !b.contains('&'),
    ensures
        normalized(a + "&nbsp;"@ + b) == normalized(a + " "@ + b),
        normalized(a + "&lt;"@ + b) == normalized(a + "<"@ + b),
        normalized(a + "&gt;"@ + b) == normalized(a + ">"@ + b),
        normalized(a + "&quot;"@ + b) == normalized(a + "\""@ + b),
        normalized(a + "&#39;"@ + b) == normalized(a + "'"@ + b),
        !b.contains(';') && !a.contains('\n') && !b.contains('\n') ==> normalized(
            a + "&amp;"@ + b,
        ) == text::join(text::words(a + "&"@ + b), " "@),
{
    lemma_normalized_nbsp(a, b);
    lemma_normalized_lt(a, b);
    lemma_normalized_gt(a, b);
    lemma_normalized_quot(a, b);
    lemma_normalized_apostrophe(a, b);
    if !b.contains(';') && !a.contains('\n') && !b.contains('\n') {
        lemma_line_with_ampersand(a, b);
    }
}

/// References are resolved one kind after the other: what an ampersand that was written as a
/// reference makes one is resolved too, unless its kind was already done with.
pub proof fn references_are_resolved_in_order(a: Seq<char>, b: Seq<char>)
    requires
        !a.contains('&'),
        !b.contains('&'),
    ensures
        normalized(a + "&amp;lt;"@ + b) == normalized(a + "<"@ + b),
        normalized(a + "&amp;gt;"@ + b) == normalized(a + ">"@ + b),
        normalized(a + "&amp;quot;"@ + b) == normalized(a + "\""@ + b),
        normalized(a + "&amp;#39;"@ + b) == normalized(a + "'"@ + b),
        !a.contains('\n') && !b.contains('\n') ==> normalized(a + "&amp;nbsp;"@ + b) == text::join(
            text::words(a + "&nbsp;"@ + b),
            " "@,
        ),
        !a.contains('\n') && !b.contains('\n') ==> normalized(a + "&amp;amp;"@ + b) == text::join(
            text::words(a + "&amp;"@ + b),
            " "@,
        ),
{
    lemma_normalized_twice_lt(a, b);
    lemma_normalized_twice_gt(a, b);
    lemma_normalized_twice_quot(a, b);
    lemma_normalized_twice_apostrophe(a, b);
    if !a.contains('\n') && !b.contains('\n') {
        lemma_line_with_twice_nbsp(a, b);
        lemma_line_with_twice_ampersand(a, b);
    }
}

proof fn lemma_no_line_end(a: Seq<char>, c: Seq<char>, b: Seq<char>)
    requires
        !a.contains('\n'),
        !c.contains('\n'),
        !b.contains('\n'),
    ensures
        !(a + c + b).contains('\n'),
{
    let s = a + c + b;
    assert forall|i: int| 0 <= i < s.len() implies s[i] != '\n' by {
        if i < a.len() {
            assert(s[i] == a[i]);
        } else if i < a.len() + c.len() {
            assert(s[i] == c[i - a.len()]);
        } else {
            assert(s[i] == b[i - a.len() - c.len()]);
        }
    }
}

/// One line of text becomes its words with a space between each two.
proof fn lemma_one_line(s: Seq<char>)
    requires
        !s.contains('\n'),
    ensures
        text::join(worded_lines(text::lines(s)), "\n"@) == text::join(text::words(s), " "@),
{
    text::lemma_position(s, '\n');
    assert(text::position(s, '\n') == s.len());
    if s.len() == 0 {
        assert(text::words(s) == Seq::<Seq<char>>::empty());
    } else {
        let line = text::join(text::words(s), " "@);
        let none = Seq::<Seq<char>>::empty();
        assert(text::lines(s) == seq![s]);
        assert(seq![s].drop_last() == none);
        assert(worded_lines(none) == none);
        if line.len() == 0 {
            assert(worded_lines(seq![s]) == none);
            assert(text::join(none, "\n"@) == line);
        } else {
            assert(worded_lines(seq![s]) == none.push(line));
            assert(text::join(none.push(line), "\n"@) == line);
        }
    }
}

/// A line of text without references becomes its words, with a space between each two.
pub proof fn words_stand_one_space_apart(s: Seq<char>)
    requires
        !s.contains('\n'),
        !s.contains('&'),
    ensures
        normalized(s) == text::join(text::words(s), " "@),
{
    lemma_decoded_absent(s);
    lemma_one_line(s);
}

/// What stands for a link: its label and its address in brackets, without the white space around
/// them; the address alone where the label is blank, and the label alone where the address is.
pub proof fn links_show_label_and_address(label: Seq<char>, href: Seq<char>)
    ensures
        text::trim(label).len() > 0 && text::trim(href).len() > 0 ==> link(label, href)
            == text::trim(label) + " ["@ + text::trim(href) + "]"@,
        text::trim(label).len() == 0 ==> link(label, href) == "["@ + text::trim(href) + "]"@,
        text::trim(label).len() > 0 && text::trim(href).len() == 0 ==> link(label, href) == label,
{
}

// ---------------------------------------------------------------------------------------------
// What a summary holds

/// What each piece of knowledge adds to a summary: one line with its name, below the first line and
/// in this order. What is empty or not known adds nothing. The readable text comes last.
pub proof fn summaries_hold_what_is_known(
    title: Seq<char>,
    body: Seq<char>,
    url: Option<Seq<char>>,
    http_status: Option<u16>,
    content_type: Option<Seq<char>>,
    original_bytes: nat,
)
    ensures
        ({
            let address = match url {
                Some(url) => if url.len() > 0 {
                    "URL: "@ + url + "\n"@
                } else {
                    Seq::empty()
                },
                None => Seq::empty(),
            };
            let status = match http_status {
                Some(status) => "HTTP status: "@ + text::decimal(status as nat) + "\n"@,
                None => Seq::empty(),
            };
            let media_type = match content_type {
                Some(content_type) => if content_type.len() > 0 {
                    "Content-Type: "@ + content_type + "\n"@
                } else {
                    Seq::empty()
                },
                None => Seq::empty(),
            };
            let heading = if title.len() > 0 {
                "Title: "@ + title + "\n"@
            } else {
                Seq::empty()
            };
            let shown = if body.len() > 0 {
                body
            } else {
                "(The HTML response contained no readable text.)"@
            };
            summary(title, body, url, http_status, content_type, original_bytes)
                == "HTML page summary\n"@ + address + status + media_type + heading
                + "Original response: "@ + text::decimal(original_bytes) + " bytes\n\n"@ + shown
        }),
{
}

/// The summary of a page is made of its title and its readable text.
pub proof fn pages_are_summarized(
    html: Seq<char>,
    url: Option<Seq<char>>,
    http_status: Option<u16>,
    content_type: Option<Seq<char>>,
    original_bytes: nat,
)
    ensures
        html_summary(html, url, http_status, content_type, original_bytes) == summary(
            title(html),
            normalized(unmarked(html)),
            url,
            http_status,
            content_type,
            original_bytes,
        ),
{
}

/// A summary of up to 32 KiB is shown whole. Of a longer one the longest beginning is shown that
/// leaves room for the notice behind it, without the white space at its end.
pub proof fn previews_use_all_room(summary: Seq<char>)
    ensures
        ({
            let notice =
                "\n\n[HTML preview truncated at 32768 bytes; use browser_curl with -o <path> to retrieve the full response.]"@;
            let room = 32768 - encode_utf8(notice).len();
            &&& overlong(summary) <==> encode_utf8(summary).len() > 32768
            &&& encode_utf8(summary).len() <= 32768 ==> preview(summary) == summary
            &&& encode_utf8(summary).len() > 32768 ==> exists|n: int|
                0 <= n < summary.len() && preview(summary) == text::trim_end(
                    #[trigger] summary.take(n),
                ) + notice && encode_utf8(summary.take(n)).len() <= room && encode_utf8(
                    summary.take(n + 1),
                ).len() > room
        }),
{
    let notice =
        "\n\n[HTML preview truncated at 32768 bytes; use browser_curl with -o <path> to retrieve the full response.]"@;
    reveal_strlit("\n\n[HTML preview truncated at ");
    reveal_strlit(" bytes; use browser_curl with -o <path> to retrieve the full response.]");
    reveal_strlit(
        "\n\n[HTML preview truncated at 32768 bytes; use browser_curl with -o <path> to retrieve the full response.]",
    );
    assert(text::decimal(32768) == seq!['3', '2', '7', '6', '8']) by {
        reveal_with_fuel(text::decimal, 6);
    }
    assert(truncation_notice() == notice);
    if encode_utf8(summary).len() > 32768 {
        lemma_notice_fits();
        let n = utf8::fitting_prefix(summary, kept_bytes()).len() as int;
        utf8::lemma_fitting_prefix(summary, kept_bytes());
        utf8::lemma_fitting_prefix_is_longest(summary, kept_bytes());
        if n == summary.len() {
            assert(summary.take(n) == summary);
        }
        assert(preview(summary) == text::trim_end(summary.take(n)) + notice);
    }
}

/// A line of text becomes its words, with a space between each two, when the six references have
/// been resolved: first the space, then the ampersand, and then the others.
pub proof fn references_come_before_words(s: Seq<char>)
    requires
        !s.contains('\n'),
    ensures
        ({
            let t = text::replaced(s, "&nbsp;"@, " "@);
            let t = text::replaced(t, "&amp;"@, "&"@);
            let t = text::replaced(t, "&lt;"@, "<"@);
            let t = text::replaced(t, "&gt;"@, ">"@);
            let t = text::replaced(t, "&quot;"@, "\""@);
            let t = text::replaced(t, "&#39;"@, "'"@);
            normalized(s) == text::join(text::words(t), " "@)
        }),
{
    reveal_strlit(" ");
    reveal_strlit("&");
    reveal_strlit("<");
    reveal_strlit(">");
    reveal_strlit("\"");
    reveal_strlit("'");
    text::lemma_replaced_brings_nothing(s, "&nbsp;"@, " "@, '\n');
    let t = text::replaced(s, "&nbsp;"@, " "@);
    text::lemma_replaced_brings_nothing(t, "&amp;"@, "&"@, '\n');
    let t = text::replaced(t, "&amp;"@, "&"@);
    text::lemma_replaced_brings_nothing(t, "&lt;"@, "<"@, '\n');
    let t = text::replaced(t, "&lt;"@, "<"@);
    text::lemma_replaced_brings_nothing(t, "&gt;"@, ">"@, '\n');
    let t = text::replaced(t, "&gt;"@, ">"@);
    text::lemma_replaced_brings_nothing(t, "&quot;"@, "\""@, '\n');
    let t = text::replaced(t, "&quot;"@, "\""@);
    text::lemma_replaced_brings_nothing(t, "&#39;"@, "'"@, '\n');
    let t = text::replaced(t, "&#39;"@, "'"@);
    lemma_one_line(t);
}

/// A page is read in steps, and each step does one thing to the whole page: the hidden elements go,
/// one kind after the other, then links are written out, then list items and blocks begin their
/// lines, and then the remaining tags go. Where a page has a shape for which a step is not described
/// more closely, the step is what the pattern for it finds.
pub proof fn pages_are_read_in_steps(html: Seq<char>, name: Seq<char>)
    ensures
        ({
            let page = without_element(html, "script"@);
            let page = without_element(page, "style"@);
            let page = without_element(page, "noscript"@);
            let page = without_element(page, "template"@);
            let page = without_element(page, "svg"@);
            let page = without_element(page, "head"@);
            unmarked(html) == markup::without_tags(with_blocks(with_list_items(linked(page))))
        }),
        stripped(html) == markup::without_tags(html),
        markup::holds_no_start(html, name) ==> without_element(html, name) == html,
        !markup::holds_no_start(html, name) && markup::without_lone_element(html, name) is None
            ==> without_element(html, name) == pattern::regex_replaced(
            "<"@ + name + "\\b[^>]*>.*?</"@ + name + "\\s*>"@,
            true,
            true,
            html,
            ""@,
        ),
        !markup::holds_attribute(html) ==> linked(html) == html,
        ({
            let links = pattern::regex_matches(
                "<a\\b[^>]*\\bhref\\s*=\\s*[\"']([^\"']+)[\"'][^>]*>(.*?)</a\\s*>"@,
                true,
                true,
                html,
            );
            markup::holds_attribute(html) && lone_link_written_out(html) is None
                && pattern::pattern_error(
                "<a\\b[^>]*\\bhref\\s*=\\s*[\"']([^\"']+)[\"'][^>]*>(.*?)</a\\s*>"@,
                true,
                true,
            ) is None ==> linked(html) == pattern::spliced(
                html,
                0,
                links,
                Seq::new(
                    links.len(),
                    |i: int|
                        link(
                            markup::without_tags(pattern::group_text(links[i], 2)),
                            pattern::group_text(links[i], 1),
                        ),
                ),
            )
        }),
        markup::holds_simple_tags(html) ==> with_list_items(html) == markup::tags_replaced(
            markup::TagKind::ListItem,
            html,
            "\n- "@,
        ),
        !markup::holds_simple_tags(html) ==> with_list_items(html) == pattern::regex_replaced(
            "<li\\b[^>]*>"@,
            true,
            false,
            html,
            "\n- "@,
        ),
        markup::holds_simple_tags(html) ==> with_blocks(html) == markup::tags_replaced(
            markup::TagKind::Block,
            html,
            "\n"@,
        ),
        !markup::holds_simple_tags(html) ==> with_blocks(html) == pattern::regex_replaced(
            "</?(?:address|article|aside|blockquote|br|dd|div|dl|dt|fieldset|figcaption|figure|footer|form|h[1-6]|header|hr|main|nav|ol|p|section|table|tbody|td|tfoot|th|thead|tr|ul)\\b[^>]*>"@,
            true,
            false,
            html,
            "\n"@,
        ),
        !markup::holds_no_start(html, "title"@) && markup::first_content(html, "title"@) is None
            ==> title(html) == (match pattern::first_group(
            "<title\\b[^>]*>(.*?)</title\\s*>"@,
            true,
            true,
            html,
            1,
        ) {
            Some(content) => normalized(markup::without_tags(content)),
            None => Seq::empty(),
        }),
{
    let links = pattern::regex_matches(ANCHOR_PATTERN@, true, true, html);
    assert(anchor_texts(links) == Seq::new(
        links.len(),
        |i: int|
            link(
                markup::without_tags(pattern::group_text(links[i], 2)),
                pattern::group_text(links[i], 1),
            ),
    ));
}

} // verus!
