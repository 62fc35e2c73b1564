//! Regular expressions: what the `regex` crate finds in a text, and what replacing it gives.

use crate::markup;
use vstd::prelude::*;

verus! {

/// One match of a regular expression in a text. Positions count characters.
pub ghost struct Match {
    /// Where the match begins.
    pub start: int,
    /// Where it ends.
    pub end: int,
    /// The text of each capture group, the whole match being the first; `None` for a group that
    /// took no part in the match.
    pub groups: Seq<Option<Seq<char>>>,
}

/// Why `regex::RegexBuilder` refuses a pattern with the given settings; `None` where it builds.
pub uninterp spec fn pattern_error(
    pattern: Seq<char>,
    case_insensitive: bool,
    dot_matches_new_line: bool,
) -> Option<Seq<char>>;

/// The successive, non-overlapping matches that the `regex` crate finds in a text, from left to
/// right, for a pattern that builds.
pub uninterp spec fn regex_matches(
    pattern: Seq<char>,
    case_insensitive: bool,
    dot_matches_new_line: bool,
    text: Seq<char>,
) -> Seq<Match>;

/// What a capture group holds, if it took part in the match.
pub open spec fn group(m: Match, index: int) -> Option<Seq<char>> {
    if 0 <= index < m.groups.len() {
        m.groups[index]
    } else {
        None
    }
}

/// What a capture group holds; nothing where it took no part in the match.
pub open spec fn group_text(m: Match, index: int) -> Seq<char> {
    match group(m, index) {
        Some(text) => text,
        None => Seq::empty(),
    }
}

/// A text from `at` on, with each match replaced by the text that stands for it.
pub open spec fn spliced(
    text: Seq<char>,
    at: int,
    matches: Seq<Match>,
    replacements: Seq<Seq<char>>,
) -> Seq<char>
    decreases matches.len(),
{
    if matches.len() == 0 {
        text.skip(at)
    } else {
        text.subrange(at, matches[0].start) + replacements[0] + spliced(
            text,
            matches[0].end,
            matches.drop_first(),
            replacements.drop_first(),
        )
    }
}

/// A text with every match of a pattern replaced by one and the same text. A pattern that does
/// not build leaves the text as it is.
pub open spec fn regex_replaced(
    pattern: Seq<char>,
    case_insensitive: bool,
    dot_matches_new_line: bool,
    text: Seq<char>,
    replacement: Seq<char>,
) -> Seq<char> {
    if pattern_error(pattern, case_insensitive, dot_matches_new_line) is Some {
        text
    } else {
        let matches = regex_matches(pattern, case_insensitive, dot_matches_new_line, text);
        spliced(text, 0, matches, Seq::new(matches.len(), |i: int| replacement))
    }
}

/// `regex::Regex::replace_all` with a replacement that refers to no capture group: every match
/// becomes the replacement and the rest of the text stays. `None` is returned for a pattern that
/// `regex::RegexBuilder::build` refuses.
///
/// The patterns for tags, elements, list items and blocks build. The first finds, from the left,
/// each `<` with all up to the next `>`. The pattern for an element finds nothing where no start
/// tag of that name begins, and finds the element where there is one. In a page of simple tags the
/// patterns for list items and for blocks find the tags of those kinds.
#[verifier::external_body]
fn regex_replace_all(
    pattern: &str,
    case_insensitive: bool,
    dot_matches_new_line: bool,
    text: &str,
    replacement: &str,
) -> (r: Option<String>)
    requires
        !replacement@.contains('$'),
    ensures
        r is None <==> pattern_error(pattern@, case_insensitive, dot_matches_new_line) is Some,
        r matches Some(t) ==> t@ == regex_replaced(
            pattern@,
            case_insensitive,
            dot_matches_new_line,
            text@,
            replacement@,
        ),
        pattern@ == "<[^>]*>"@ && replacement@.len() == 0 ==> r.deep_view() == Some(markup::without_tags(text@)),
        (forall|name: Seq<char>| #[trigger]
            markup::is_element_name(name) && pattern@ == "<"@ + name + "\\b[^>]*>.*?</"@ + name
                + "\\s*>"@ && markup::holds_no_start(text@, name) ==> r.deep_view() == Some(text@)),
        (forall|name: Seq<char>, a: Seq<char>, tag: Seq<char>, c: Seq<char>, b: Seq<char>|
            #[trigger] markup::is_element_name(name) && pattern@ == "<"@ + name
                + "\\b[^>]*>.*?</"@ + name + "\\s*>"@ && case_insensitive && dot_matches_new_line
                && text@ == #[trigger] markup::with_element(a, tag, c, b) && markup::is_framed(
                a,
                tag,
                c,
                b,
                name,
            ) ==> r.deep_view() == Some(a + replacement@ + b)),
        pattern@ == "<li\\b[^>]*>"@ && case_insensitive && markup::holds_simple_tags(text@) ==> r.deep_view() == Some(markup::tags_replaced(markup::TagKind::ListItem, text@, replacement@)),
        pattern@
            == "</?(?:address|article|aside|blockquote|br|dd|div|dl|dt|fieldset|figcaption|figure|footer|form|h[1-6]|header|hr|main|nav|ol|p|section|table|tbody|td|tfoot|th|thead|tr|ul)\\b[^>]*>"@
            && case_insensitive && markup::holds_simple_tags(text@) ==> r.deep_view() == Some(markup::tags_replaced(markup::TagKind::Block, text@, replacement@)),
{
    let regex = regex::RegexBuilder::new(pattern)
        .case_insensitive(case_insensitive)
        .dot_matches_new_line(dot_matches_new_line)
        .build()
        .ok()?;
    Some(regex.replace_all(text, replacement).into_owned())
}

/// `regex::Regex::captures`: what one capture group holds in the first match. `None` is returned
/// where there is no match, where the group took no part in it, and for a pattern that
/// `regex::RegexBuilder::build` refuses. The pattern for titles finds nothing where no start tag of
/// a title begins, and else what stands in the first title.
#[verifier::external_body]
pub(crate) fn regex_first_group(
    pattern: &str,
    case_insensitive: bool,
    dot_matches_new_line: bool,
    text: &str,
    index: usize,
) -> (r: Option<String>)
    ensures
        r.deep_view() == first_group(
            pattern@,
            case_insensitive,
            dot_matches_new_line,
            text@,
            index as int,
        ),
        pattern@ == "<title\\b[^>]*>(.*?)</title\\s*>"@ && markup::holds_no_start(text@, "title"@)
            ==> r is None,
        (forall|a: Seq<char>, tag: Seq<char>, c: Seq<char>, b: Seq<char>|
            pattern@ == "<title\\b[^>]*>(.*?)</title\\s*>"@ && case_insensitive
                && dot_matches_new_line && index == 1 && text@ == #[trigger] markup::with_element(
                a,
                tag,
                c,
                b,
            ) && markup::is_first(a, tag, c, "title"@) ==> r.deep_view() == Some(c)),
{
    let regex = regex::RegexBuilder::new(pattern)
        .case_insensitive(case_insensitive)
        .dot_matches_new_line(dot_matches_new_line)
        .build()
        .ok()?;
    Some(regex.captures(text)?.get(index)?.as_str().to_string())
}

/// What a capture group holds in the first match of a pattern.
pub open spec fn first_group(
    pattern: Seq<char>,
    case_insensitive: bool,
    dot_matches_new_line: bool,
    text: Seq<char>,
    index: int,
) -> Option<Seq<char>> {
    let matches = regex_matches(pattern, case_insensitive, dot_matches_new_line, text);
    if pattern_error(pattern, case_insensitive, dot_matches_new_line) is Some || matches.len() == 0 {
        None
    } else {
        group(matches[0], index)
    }
}

/// Whether a pattern with the default settings matches somewhere in a text.
pub open spec fn found(pattern: Seq<char>, text: Seq<char>) -> bool {
    regex_matches(pattern, false, false, text).len() > 0
}

/// `regex::Regex::new` and `regex::Regex::is_match`: whether the pattern matches somewhere in the
/// text, or, for a pattern that does not build, why.
#[verifier::external_body]
pub(crate) fn regex_is_match(pattern: &str, text: &str) -> (r: Result<bool, String>)
    ensures
        match pattern_error(pattern@, false, false) {
            None => r matches Ok(b) && b == (regex_matches(pattern@, false, false, text@).len() > 0),
            Some(reason) => r matches Err(e) && e@ == reason,
        },
{
    let regex = regex::Regex::new(pattern).map_err(|error| error.to_string())?;
    Ok(regex.is_match(text))
}

/// A text with every match of a pattern replaced by one and the same text. A pattern that does
/// not build leaves the text as it is.
pub fn replace_matches(
    pattern: &str,
    case_insensitive: bool,
    dot_matches_new_line: bool,
    text: String,
    replacement: &str,
) -> (r: String)
    requires
        !replacement@.contains('$'),
    ensures
        r@ == regex_replaced(
            pattern@,
            case_insensitive,
            dot_matches_new_line,
            text@,
            replacement@,
        ),
        pattern@ == "<[^>]*>"@ && replacement@.len() == 0 ==> r@ == markup::without_tags(text@),
        (forall|name: Seq<char>| #[trigger]
            markup::is_element_name(name) && pattern@ == "<"@ + name + "\\b[^>]*>.*?</"@ + name
                + "\\s*>"@ && markup::holds_no_start(text@, name) ==> r@ == text@),
        (forall|name: Seq<char>, a: Seq<char>, tag: Seq<char>, c: Seq<char>, b: Seq<char>|
            #[trigger] markup::is_element_name(name) && pattern@ == "<"@ + name
                + "\\b[^>]*>.*?</"@ + name + "\\s*>"@ && case_insensitive && dot_matches_new_line
                && text@ == #[trigger] markup::with_element(a, tag, c, b) && markup::is_framed(
                a,
                tag,
                c,
                b,
                name,
            ) ==> r@ == a + replacement@ + b),
        pattern@ == "<li\\b[^>]*>"@ && case_insensitive && markup::holds_simple_tags(text@) ==> r@ == markup::tags_replaced(markup::TagKind::ListItem, text@, replacement@),
        pattern@
            == "</?(?:address|article|aside|blockquote|br|dd|div|dl|dt|fieldset|figcaption|figure|footer|form|h[1-6]|header|hr|main|nav|ol|p|section|table|tbody|td|tfoot|th|thead|tr|ul)\\b[^>]*>"@
            && case_insensitive && markup::holds_simple_tags(text@) ==> r@ == markup::tags_replaced(markup::TagKind::Block, text@, replacement@),
{
    match regex_replace_all(
        pattern,
        case_insensitive,
        dot_matches_new_line,
        text.as_str(),
        replacement,
    ) {
        Some(replaced) => replaced,
        None => text,
    }
}

} // verus!
