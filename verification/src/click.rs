//! Clicking: what is clicked, in which page, and what is reported.

use crate::json;
use crate::json::Json;
use crate::pattern;
use crate::targets::LiveTarget;
use crate::text;
use vstd::prelude::*;

verus! {

// ---------------------------------------------------------------------------------------------
// What can go wrong

/// Why a click is refused.
#[derive(Debug)]
pub enum ClickError {
    /// Both a selector and an element or a role were given.
    ConflictingStrategies,
    /// A role was given without an element.
    RoleWithoutElement,
    /// Neither a selector nor an element was given.
    MissingTarget,
    /// The browser is not of the Chromium family.
    UnsupportedEngine,
    /// The pattern for the address of the page is no regular expression.
    InvalidTargetPattern { pattern: String, reason: String },
    /// No live page was found.
    NoLivePage { description: String },
    /// More than one live page was found; the addresses of the first few are given.
    AmbiguousPages { description: String, count: usize, urls: Vec<String>, correction: String },
}

impl ClickError {
    /// What the error says.
    pub open spec fn text(self) -> Seq<char> {
        match self {
            ClickError::ConflictingStrategies =>
                "choose one click strategy: positional ELEMENT with optional `--role`, or `--selector`"@,
            ClickError::RoleWithoutElement =>
                "`--role` requires positional ELEMENT (the accessible name)"@,
            ClickError::MissingTarget =>
                "missing click target; pass visible text/accessibility name as ELEMENT, or use `--selector`"@,
            ClickError::UnsupportedEngine =>
                "`browser-control click` requires a Chromium-family browser because Playwright cannot attach to a user-launched Firefox session; select chrome, edge, chromium, or brave"@,
            ClickError::InvalidTargetPattern { pattern, reason } =>
                "invalid `--target` URL regex `"@ + pattern@ + "`"@,
            ClickError::NoLivePage { description } =>
                "no live page matched "@ + description@ + "; open or select a page and retry"@,
            ClickError::AmbiguousPages { description, count, urls, correction } =>
                description@ + " matched "@ + text::decimal(count as nat)
                    + " live pages; refusing to guess ("@ + text::join(text::texts(urls@), ", "@)
                    + "); "@ + correction@,
        }
    }

    /// What the error says.
    pub fn message(&self) -> (r: String)
        ensures
            r@ == self.text(),
    {
        match self {
            ClickError::ConflictingStrategies =>
                "choose one click strategy: positional ELEMENT with optional `--role`, or `--selector`".to_string(),
            ClickError::RoleWithoutElement =>
                "`--role` requires positional ELEMENT (the accessible name)".to_string(),
            ClickError::MissingTarget =>
                "missing click target; pass visible text/accessibility name as ELEMENT, or use `--selector`".to_string(),
            ClickError::UnsupportedEngine =>
                "`browser-control click` requires a Chromium-family browser because Playwright cannot attach to a user-launched Firefox session; select chrome, edge, chromium, or brave".to_string(),
            ClickError::InvalidTargetPattern { pattern, reason: _ } => {
                let mut out = "invalid `--target` URL regex `".to_string();
                out.append(pattern.as_str());
                out.append("`");
                out
            },
            ClickError::NoLivePage { description } => {
                let mut out = "no live page matched ".to_string();
                out.append(description.as_str());
                out.append("; open or select a page and retry");
                out
            },
            ClickError::AmbiguousPages { description, count, urls, correction } => {
                let mut out = description.clone();
                out.append(" matched ");
                text::push_decimal(&mut out, *count as u64);
                out.append(" live pages; refusing to guess (");
                push_joined(&mut out, urls, ", ");
                out.append("); ");
                out.append(correction.as_str());
                out
            },
        }
    }
}

fn push_joined(out: &mut String, parts: &Vec<String>, separator: &str)
    ensures
        final(out)@ == old(out)@ + text::join(text::texts(parts@), separator@),
{
    let ghost before = out@;
    for i in 0..parts.len()
        invariant
            out@ == before + text::join(text::texts(parts@).take(i as int), separator@),
    {
        if i > 0 {
            out.append(separator);
        }
        out.append(parts[i].as_str());
        assert(text::texts(parts@).take(i + 1).drop_last() == text::texts(parts@).take(i as int));
        assert(out@ == before + text::join(text::texts(parts@).take(i + 1), separator@));
    }
    assert(text::texts(parts@).take(parts@.len() as int) == text::texts(parts@));
}

// ---------------------------------------------------------------------------------------------
// The choice of a page

/// The addresses of the first pages, five at most.
pub open spec fn first_urls(candidates: Seq<LiveTarget>) -> Seq<Seq<char>> {
    Seq::new(
        if candidates.len() < 5 {
            candidates.len()
        } else {
            5
        },
        |i: int| candidates[i].url@,
    )
}

/// The choice among the pages that come into question: the one there is, and none where there
/// are more or there is none.
pub open spec fn is_unique_choice(
    r: Result<String, ClickError>,
    candidates: Seq<LiveTarget>,
    description: Seq<char>,
    correction: Seq<char>,
) -> bool {
    if candidates.len() == 0 {
        r matches Err(ClickError::NoLivePage { description: d }) && d@ == description
    } else if candidates.len() == 1 {
        r matches Ok(id) && id@ == candidates[0].id@
    } else {
        &&& r matches Err(ClickError::AmbiguousPages { description: d, count, urls, correction: c })
        &&& d@ == description
        &&& count == candidates.len()
        &&& text::texts(urls@) == first_urls(candidates)
        &&& c@ == correction
    }
}

/// The only page that comes into question. Where there are several, none of them is taken.
pub fn choose_unique_target(
    candidates: Vec<LiveTarget>,
    description: &str,
    correction: &str,
) -> (r: Result<String, ClickError>)
    ensures
        is_unique_choice(r, candidates@, description@, correction@),
{
    if candidates.len() == 0 {
        return Err(ClickError::NoLivePage { description: description.to_string() });
    }
    if candidates.len() == 1 {
        return Ok(candidates[0].id.clone());
    }
    let shown: usize = if candidates.len() < 5 {
        candidates.len()
    } else {
        5
    };
    let mut urls: Vec<String> = Vec::new();
    for i in 0..shown
        invariant
            shown <= candidates@.len(),
            urls@.len() == i,
            forall|j: int| 0 <= j < i ==> #[trigger] urls@[j]@ == candidates@[j].url@,
    {
        urls.push(candidates[i].url.clone());
    }
    assert(text::texts(urls@) == first_urls(candidates@));
    Err(
        ClickError::AmbiguousPages {
            description: description.to_string(),
            count: candidates.len(),
            urls,
            correction: correction.to_string(),
        },
    )
}

/// Where the page to click in is looked for.
#[derive(Debug)]
pub enum ClickRoute {
    /// In a tab that has a name.
    NamedTab(String),
    /// Among the live pages: those with an address that matches the pattern, or, without a
    /// pattern, all of them.
    LivePages(Option<String>),
}

/// Where the page to click in is looked for. A tab and a pattern exclude each other.
pub fn click_route(tab_name: Option<String>, target: Option<String>) -> (r: ClickRoute)
    requires
        tab_name is None || target is None,
    ensures
        r == (match tab_name {
            Some(name) => ClickRoute::NamedTab(name),
            None => ClickRoute::LivePages(target),
        }),
{
    match tab_name {
        Some(name) => ClickRoute::NamedTab(name),
        None => ClickRoute::LivePages(target),
    }
}

/// The pages with an address that a pattern matches.
pub open spec fn matching(targets: Seq<LiveTarget>, pattern: Seq<char>) -> Seq<LiveTarget> {
    targets.filter(|page: LiveTarget| pattern::found(pattern, page.url@))
}

/// How the pages that a pattern matches are referred to.
pub open spec fn pattern_description(pattern: Seq<char>) -> Seq<char> {
    "URL regex `"@ + pattern + "`"@
}

/// The page to click in, out of the live pages: the only one with an address that the pattern
/// matches, or, without a pattern, the only one.
pub fn resolve_click_target(targets: Vec<LiveTarget>, target: Option<&str>) -> (r: Result<
    String,
    ClickError,
>)
    ensures
        match target {
            None => is_unique_choice(
                r,
                targets@,
                "the selected browser"@,
                "use `-b <browser>/<named-tab>` or `--target <url-regex>`"@,
            ),
            Some(pattern) => match pattern::pattern_error(pattern@, false, false) {
                Some(error) => {
                    &&& r matches Err(ClickError::InvalidTargetPattern { pattern: p, reason })
                    &&& p@ == pattern@
                    &&& reason@ == error
                },
                None => is_unique_choice(
                    r,
                    matching(targets@, pattern@),
                    pattern_description(pattern@),
                    "use a narrower `--target` regex"@,
                ),
            },
        },
{
    let pattern = match target {
        Some(pattern) => pattern,
        None => {
            return choose_unique_target(
                targets,
                "the selected browser",
                "use `-b <browser>/<named-tab>` or `--target <url-regex>`",
            );
        },
    };
    // Whether the pattern builds does not depend on the text: the empty one will do.
    if let Err(reason) = pattern::regex_is_match(pattern, "") {
        return Err(ClickError::InvalidTargetPattern { pattern: pattern.to_string(), reason });
    }
    let mut candidates: Vec<LiveTarget> = Vec::new();
    for i in 0..targets.len()
        invariant
            pattern::pattern_error(pattern@, false, false) is None,
            candidates@ == matching(targets@.take(i as int), pattern@),
    {
        reveal(Seq::filter);
        assert(targets@.take(i + 1).drop_last() == targets@.take(i as int));
        if let Ok(true) = pattern::regex_is_match(pattern, targets[i].url.as_str()) {
            candidates.push(targets[i].clone());
        }
    }
    assert(targets@.take(targets@.len() as int) == targets@);
    let mut description = "URL regex `".to_string();
    description.append(pattern);
    description.append("`");
    choose_unique_target(candidates, description.as_str(), "use a narrower `--target` regex")
}

/// How a browser is driven.
#[derive(Clone, Copy, Debug, PartialEq, Eq, Structural)]
pub enum Engine {
    /// The Chrome DevTools Protocol.
    Cdp,
    /// WebDriver BiDi.
    Bidi,
}

/// Clicking takes a browser that is driven over the Chrome DevTools Protocol.
pub fn check_click_engine(engine: Engine) -> (r: Result<(), ClickError>)
    ensures
        engine == Engine::Cdp ==> r is Ok,
        engine != Engine::Cdp ==> r == Err::<(), ClickError>(ClickError::UnsupportedEngine),
{
    if engine == Engine::Cdp {
        Ok(())
    } else {
        Err(ClickError::UnsupportedEngine)
    }
}

// ---------------------------------------------------------------------------------------------
// What is clicked

/// A text that holds nothing but white space.
pub open spec fn is_blank(s: Seq<char>) -> bool {
    text::trim(s).len() == 0
}

/// A value, unless it is blank.
pub open spec fn given(value: Option<Seq<char>>) -> Option<Seq<char>> {
    match value {
        Some(text) => if is_blank(text) {
            None
        } else {
            Some(text)
        },
        None => None,
    }
}

fn unless_blank(value: Option<String>) -> (r: Option<String>)
    ensures
        r.deep_view() == given(value.deep_view()),
{
    match value {
        Some(text) => {
            let chars = text::chars_of(text.as_str());
            if text::trimmed(chars.as_slice()).len() == 0 {
                None
            } else {
                Some(text)
            }
        },
        None => None,
    }
}

/// Why a combination of element, role and selector is refused, if it is.
pub open spec fn refusal(
    element: Option<Seq<char>>,
    role: Option<Seq<char>>,
    selector: Option<Seq<char>>,
) -> Option<ClickError> {
    if given(selector) is Some && (given(element) is Some || given(role) is Some) {
        Some(ClickError::ConflictingStrategies)
    } else if given(role) is Some && given(element) is None {
        Some(ClickError::RoleWithoutElement)
    } else if given(selector) is None && given(element) is None {
        Some(ClickError::MissingTarget)
    } else {
        None
    }
}

/// Entries with one more text, if it is given.
pub open spec fn with_text(
    entries: Map<Seq<char>, Json>,
    key: Seq<char>,
    value: Option<Seq<char>>,
) -> Map<Seq<char>, Json> {
    match value {
        Some(text) => entries.insert(key, Json::Text(text)),
        None => entries,
    }
}

/// A list of texts as a JSON array of strings.
pub open spec fn text_array(values: Seq<Seq<char>>) -> Json {
    Json::Array(Seq::new(values.len(), |i: int| Json::Text(values[i])))
}

/// The parameters of a click.
pub open spec fn click_params(
    element: Option<Seq<char>>,
    role: Option<Seq<char>>,
    selector: Option<Seq<char>>,
    fuzzy: bool,
    double_click: bool,
    button: Seq<char>,
    modifiers: Seq<Seq<char>>,
    timeout_ms: u64,
) -> Map<Seq<char>, Json> {
    let entries = with_text(Map::empty(), "element"@, given(element));
    let entries = with_text(entries, "role"@, given(role));
    let entries = with_text(entries, "selector"@, given(selector));
    let entries = entries.insert("exact"@, Json::Bool(!fuzzy));
    let entries = entries.insert("double_click"@, Json::Bool(double_click));
    let entries = entries.insert("button"@, Json::Text(button));
    let entries = if modifiers.len() > 0 {
        entries.insert("modifiers"@, text_array(modifiers))
    } else {
        entries
    };
    entries.insert("timeout_ms"@, Json::Integer(timeout_ms as int))
}

fn put_text(
    map: &mut serde_json::Map<String, serde_json::Value>,
    key: &str,
    value: Option<String>,
)
    ensures
        json::object_entries(*final(map)) == with_text(
            json::object_entries(*old(map)),
            key@,
            value.deep_view(),
        ),
{
    if let Some(text) = value {
        json::put(map, key, json::json_text(text));
    }
}

fn text_values(values: Vec<String>) -> (r: serde_json::Value)
    ensures
        json::json_model(r) == text_array(text::texts(values@)),
{
    let mut out: Vec<serde_json::Value> = Vec::new();
    for i in 0..values.len()
        invariant
            out@.len() == i,
            forall|j: int|
                0 <= j < i ==> json::json_model(#[trigger] out@[j]) == Json::Text(values@[j]@),
    {
        out.push(json::json_text(values[i].clone()));
    }
    assert(json::json_models(out@) == Seq::new(
        text::texts(values@).len(),
        |i: int| Json::Text(text::texts(values@)[i]),
    ));
    json::json_array(out)
}

/// The parameters of a click. An element, with or without a role, and a selector are two ways to
/// say what is clicked: exactly one of them has to be used. Blank values count as absent.
pub fn build_click_params(
    element: Option<String>,
    role: Option<String>,
    selector: Option<String>,
    fuzzy: bool,
    double_click: bool,
    button: String,
    modifiers: Vec<String>,
    timeout_ms: u64,
) -> (r: Result<serde_json::Map<String, serde_json::Value>, ClickError>)
    ensures
        match refusal(element.deep_view(), role.deep_view(), selector.deep_view()) {
            Some(error) => r matches Err(e) && e == error,
            None => r matches Ok(params) && json::object_entries(params) == click_params(
                element.deep_view(),
                role.deep_view(),
                selector.deep_view(),
                fuzzy,
                double_click,
                button@,
                text::texts(modifiers@),
                timeout_ms,
            ),
        },
{
    let element = unless_blank(element);
    let role = unless_blank(role);
    let selector = unless_blank(selector);
    if selector.is_some() && (element.is_some() || role.is_some()) {
        return Err(ClickError::ConflictingStrategies);
    }
    if role.is_some() && element.is_none() {
        return Err(ClickError::RoleWithoutElement);
    }
    if selector.is_none() && element.is_none() {
        return Err(ClickError::MissingTarget);
    }
    let mut params = serde_json::Map::new();
    put_text(&mut params, "element", element);
    put_text(&mut params, "role", role);
    put_text(&mut params, "selector", selector);
    json::put(&mut params, "exact", json::json_bool(!fuzzy));
    json::put(&mut params, "double_click", json::json_bool(double_click));
    json::put(&mut params, "button", json::json_text(button));
    if modifiers.len() > 0 {
        json::put(&mut params, "modifiers", text_values(modifiers));
    }
    json::put(&mut params, "timeout_ms", json::json_unsigned(timeout_ms));
    Ok(params)
}

/// The request for a click: its parameters and the page that it is for.
pub fn click_request(
    params: serde_json::Map<String, serde_json::Value>,
    target_id: String,
) -> (r: serde_json::Value)
    ensures
        json::json_model(r) == Json::Object(
            json::object_entries(params).insert("target_id"@, Json::Text(target_id@)),
        ),
{
    let mut params = params;
    json::put(&mut params, "target_id", json::json_text(target_id));
    json::json_object(params)
}

// ---------------------------------------------------------------------------------------------
// What is reported

/// The text that Rust's `Debug` writes for a string: quoted, with what is special escaped.
pub uninterp spec fn debug_text(text: Seq<char>) -> Seq<char>;

/// `format!` with `{:?}` of a string.
#[verifier::external_body]
fn debug_string(text: &str) -> (r: String)
    ensures
        r@ == debug_text(text@),
{
    format!("{:?}", text)
}

/// What was clicked: the element, with its role before it if there is one, or else the selector.
pub open spec fn click_description(
    role: Option<Seq<char>>,
    quoted_element: Option<Seq<char>>,
    quoted_selector: Option<Seq<char>>,
) -> Seq<char> {
    match (role, quoted_element, quoted_selector) {
        (Some(role), Some(element), _) => role + " "@ + element,
        (None, Some(element), _) => element,
        (_, None, Some(selector)) => "selector "@ + selector,
        (_, None, None) => "element"@,
    }
}

/// One line that says what was clicked, and how it was found.
pub open spec fn click_line(
    strategy: Option<Seq<char>>,
    role: Option<Seq<char>>,
    quoted_element: Option<Seq<char>>,
    quoted_selector: Option<Seq<char>>,
) -> Seq<char> {
    "clicked "@ + click_description(role, quoted_element, quoted_selector) + " ("@ + (
    match strategy {
        Some(strategy) => strategy,
        None => "unknown"@,
    }) + ")"@
}

/// One line that says what was clicked, and how it was found. Element and selector are quoted.
pub fn describe_click(
    strategy: Option<&str>,
    role: Option<&str>,
    quoted_element: Option<&str>,
    quoted_selector: Option<&str>,
) -> (r: String)
    ensures
        r@ == click_line(
            strategy.deep_view(),
            role.deep_view(),
            quoted_element.deep_view(),
            quoted_selector.deep_view(),
        ),
{
    let mut out = "clicked ".to_string();
    match quoted_element {
        Some(element) => {
            if let Some(role) = role {
                out.append(role);
                out.append(" ");
            }
            out.append(element);
        },
        None => match quoted_selector {
            Some(selector) => {
                out.append("selector ");
                out.append(selector);
            },
            None => {
                out.append("element");
            },
        },
    }
    assert(out@ == "clicked "@ + click_description(
        role.deep_view(),
        quoted_element.deep_view(),
        quoted_selector.deep_view(),
    ));
    out.append(" (");
    match strategy {
        Some(strategy) => {
            out.append(strategy);
        },
        None => {
            out.append("unknown");
        },
    }
    out.append(")");
    out
}

/// A text that may be there, as `Debug` writes it.
pub open spec fn quoted(text: Option<Seq<char>>) -> Option<Seq<char>> {
    match text {
        Some(text) => Some(debug_text(text)),
        None => None,
    }
}

fn quote(text: Option<&str>) -> (r: Option<String>)
    ensures
        r.deep_view() == quoted(text.deep_view()),
{
    match text {
        Some(text) => Some(debug_string(text)),
        None => None,
    }
}

/// The report of a click: the whole result as JSON, from which the result can be told, or one line
/// for a human reader.
pub fn format_click_output(value: &serde_json::Value, json_output: bool) -> (r: String)
    ensures
        r@ == (if json_output {
            json::pretty_json(json::json_model(*value))
        } else {
            let result = json::json_model(*value);
            click_line(
                json::text_under(result, "strategy"@),
                json::text_under(result, "role"@),
                quoted(json::text_under(result, "element"@)),
                quoted(json::text_under(result, "selector"@)),
            )
        }),
        json_output ==> forall|other: Json| #[trigger]
            json::pretty_json(other) == r@ ==> other == json::json_model(*value),
{
    if json_output {
        return json::json_pretty(value);
    }
    let element = quote(json::text_field(value, "element"));
    let selector = quote(json::text_field(value, "selector"));
    describe_click(
        json::text_field(value, "strategy"),
        json::text_field(value, "role"),
        text::borrowed(&element),
        text::borrowed(&selector),
    )
}

// ---------------------------------------------------------------------------------------------
// What holds of all clicks

/// The parameters of an accepted click name an element or a selector and never both, name a role
/// only together with an element, hold no blank target, and ask for exact matching unless fuzzy
/// matching was asked for.
pub proof fn one_strategy_is_used(
    element: Option<Seq<char>>,
    role: Option<Seq<char>>,
    selector: Option<Seq<char>>,
    fuzzy: bool,
    double_click: bool,
    button: Seq<char>,
    modifiers: Seq<Seq<char>>,
    timeout_ms: u64,
)
    requires
        refusal(element, role, selector) is None,
    ensures
        ({
            let params = click_params(
                element,
                role,
                selector,
                fuzzy,
                double_click,
                button,
                modifiers,
                timeout_ms,
            );
            let has_element = params.dom().contains("element"@);
            let has_selector = params.dom().contains("selector"@);
            &&& has_element != has_selector
            &&& params.dom().contains("role"@) ==> has_element
            &&& has_element ==> given(element) is Some && params["element"@] == Json::Text(
                element->0,
            )
            &&& has_selector ==> given(selector) is Some && params["selector"@] == Json::Text(
                selector->0,
            )
            &&& params.dom().contains("exact"@) && params["exact"@] == Json::Bool(!fuzzy)
        }),
{
    reveal_strlit("element");
    reveal_strlit("role");
    reveal_strlit("selector");
    reveal_strlit("exact");
    reveal_strlit("double_click");
    reveal_strlit("button");
    reveal_strlit("modifiers");
    reveal_strlit("timeout_ms");
    assert("element"@[0] == 'e' && "element"@[1] == 'l');
    assert("role"@[0] == 'r');
    assert("selector"@[0] == 's');
    assert("exact"@[0] == 'e' && "exact"@[1] == 'x');
    assert("double_click"@[0] == 'd');
    assert("button"@[0] == 'b');
    assert("modifiers"@[0] == 'm');
    assert("timeout_ms"@[0] == 't');
}

/// A page is taken only where exactly one comes into question, and then it is that one: the
/// library never guesses.
pub proof fn a_page_is_never_guessed(
    r: Result<String, ClickError>,
    candidates: Seq<LiveTarget>,
    description: Seq<char>,
    correction: Seq<char>,
)
    requires
        is_unique_choice(r, candidates, description, correction),
    ensures
        r is Ok <==> candidates.len() == 1,
        r matches Ok(id) ==> id@ == candidates[0].id@,
{
}

proof fn lemma_no_match(targets: Seq<LiveTarget>, pattern: Seq<char>)
    requires
        matching(targets, pattern).len() == 0,
    ensures
        forall|i: int|
            0 <= i < targets.len() ==> !pattern::found(pattern, (#[trigger] targets[i]).url@),
    decreases targets.len(),
{
    reveal(Seq::filter);
    if targets.len() > 0 {
        lemma_no_match(targets.drop_last(), pattern);
        assert forall|i: int| 0 <= i < targets.len() implies !pattern::found(
            pattern,
            (#[trigger] targets[i]).url@,
        ) by {
            if i < targets.len() - 1 {
                assert(targets.drop_last()[i] == targets[i]);
            }
        }
    }
}

/// Where a pattern leaves exactly one page, that page has an address that the pattern matches, and
/// no other page has.
pub proof fn a_matching_page_is_the_only_one(targets: Seq<LiveTarget>, pattern: Seq<char>)
    requires
        matching(targets, pattern).len() == 1,
    ensures
        exists|i: int|
            {
                &&& 0 <= i < targets.len()
                &&& #[trigger] targets[i] == matching(targets, pattern)[0]
                &&& pattern::found(pattern, targets[i].url@)
                &&& forall|j: int|
                    0 <= j < targets.len() && j != i ==> !pattern::found(
                        pattern,
                        (#[trigger] targets[j]).url@,
                    )
            },
    decreases targets.len(),
{
    reveal(Seq::filter);
    let front = targets.drop_last();
    if pattern::found(pattern, targets.last().url@) {
        lemma_no_match(front, pattern);
        let i = targets.len() - 1;
        assert(targets[i] == matching(targets, pattern)[0]);
        assert forall|j: int| 0 <= j < targets.len() && j != i implies !pattern::found(
            pattern,
            (#[trigger] targets[j]).url@,
        ) by {
            assert(front[j] == targets[j]);
        }
    } else {
        a_matching_page_is_the_only_one(front, pattern);
        let i = choose|i: int|
            {
                &&& 0 <= i < front.len()
                &&& #[trigger] front[i] == matching(front, pattern)[0]
                &&& pattern::found(pattern, front[i].url@)
                &&& forall|j: int|
                    0 <= j < front.len() && j != i ==> !pattern::found(
                        pattern,
                        (#[trigger] front[j]).url@,
                    )
            };
        assert(targets[i] == front[i]);
        assert forall|j: int| 0 <= j < targets.len() && j != i implies !pattern::found(
            pattern,
            (#[trigger] targets[j]).url@,
        ) by {
            if j < front.len() {
                assert(front[j] == targets[j]);
            }
        }
    }
}

/// A text that holds something other than white space.
proof fn lemma_is_blank(s: Seq<char>)
    ensures
        is_blank(s) <==> forall|i: int| 0 <= i < s.len() ==> text::is_whitespace(#[trigger] s[i]),
{
    text::lemma_trim_part(s);
    let (m, n) = choose|m: int, n: int|
        0 <= m <= n <= s.len() && text::trim(s) == #[trigger] s.subrange(m, n) && (forall|i: int|
            (0 <= i < m || n <= i < s.len()) ==> text::is_whitespace(#[trigger] s[i]));
    if text::trim(s).len() > 0 {
        assert(text::trim(s)[0] == s[m]);
    }
}

/// When a click is refused, and why: exactly one of a selector and an element has to be given, and
/// a role only with an element. White space alone counts as nothing.
pub proof fn one_way_to_click(
    element: Option<Seq<char>>,
    role: Option<Seq<char>>,
    selector: Option<Seq<char>>,
)
    ensures
        ({
            let e = element matches Some(s) && exists|i: int|
                0 <= i < s.len() && !text::is_whitespace(#[trigger] s[i]);
            let r = role matches Some(s) && exists|i: int|
                0 <= i < s.len() && !text::is_whitespace(#[trigger] s[i]);
            let c = selector matches Some(s) && exists|i: int|
                0 <= i < s.len() && !text::is_whitespace(#[trigger] s[i]);
            &&& c && (e || r) <==> refusal(element, role, selector) == Some(
                ClickError::ConflictingStrategies,
            )
            &&& !c && r && !e <==> refusal(element, role, selector) == Some(
                ClickError::RoleWithoutElement,
            )
            &&& !c && !r && !e <==> refusal(element, role, selector) == Some(
                ClickError::MissingTarget,
            )
            &&& (c && !e && !r) || (!c && e) <==> refusal(element, role, selector) is None
        }),
{
    if let Some(s) = element {
        lemma_is_blank(s);
    }
    if let Some(s) = role {
        lemma_is_blank(s);
    }
    if let Some(s) = selector {
        lemma_is_blank(s);
    }
}

/// The parameters of a click hold what was asked for, each value under its name and unchanged, and
/// nothing else.
pub proof fn what_was_asked_for_is_sent(
    element: Option<Seq<char>>,
    role: Option<Seq<char>>,
    selector: Option<Seq<char>>,
    fuzzy: bool,
    double_click: bool,
    button: Seq<char>,
    modifiers: Seq<Seq<char>>,
    timeout_ms: u64,
)
    ensures
        ({
            let params = click_params(
                element,
                role,
                selector,
                fuzzy,
                double_click,
                button,
                modifiers,
                timeout_ms,
            );
            let e = element matches Some(s) && exists|i: int|
                0 <= i < s.len() && !text::is_whitespace(#[trigger] s[i]);
            let r = role matches Some(s) && exists|i: int|
                0 <= i < s.len() && !text::is_whitespace(#[trigger] s[i]);
            let c = selector matches Some(s) && exists|i: int|
                0 <= i < s.len() && !text::is_whitespace(#[trigger] s[i]);
            &&& params.dom().contains("button"@) && params["button"@] == Json::Text(button)
            &&& params.dom().contains("double_click"@) && params["double_click"@] == Json::Bool(
                double_click,
            )
            &&& params.dom().contains("exact"@) && params["exact"@] == Json::Bool(!fuzzy)
            &&& params.dom().contains("timeout_ms"@) && params["timeout_ms"@] == Json::Integer(
                timeout_ms as int,
            )
            &&& params.dom().contains("modifiers"@) <==> modifiers.len() > 0
            &&& modifiers.len() > 0 ==> (params["modifiers"@] matches Json::Array(values)
                && values.len() == modifiers.len() && forall|i: int|
                0 <= i < modifiers.len() ==> #[trigger] values[i] == Json::Text(modifiers[i]))
            &&& params.dom().contains("element"@) <==> e
            &&& e ==> params["element"@] == Json::Text(element->0)
            &&& params.dom().contains("role"@) <==> r
            &&& r ==> params["role"@] == Json::Text(role->0)
            &&& params.dom().contains("selector"@) <==> c
            &&& c ==> params["selector"@] == Json::Text(selector->0)
            &&& forall|key: Seq<char>| #[trigger]
                params.dom().contains(key) ==> key == "element"@ || key == "role"@ || key
                    == "selector"@ || key == "exact"@ || key == "double_click"@ || key == "button"@
                    || key == "modifiers"@ || key == "timeout_ms"@
        }),
{
    reveal_strlit("element");
    reveal_strlit("role");
    reveal_strlit("selector");
    reveal_strlit("exact");
    reveal_strlit("double_click");
    reveal_strlit("button");
    reveal_strlit("modifiers");
    reveal_strlit("timeout_ms");
    assert("element"@[0] == 'e' && "element"@[1] == 'l');
    assert("role"@[0] == 'r');
    assert("selector"@[0] == 's');
    assert("exact"@[0] == 'e' && "exact"@[1] == 'x');
    assert("double_click"@[0] == 'd');
    assert("button"@[0] == 'b');
    assert("modifiers"@[0] == 'm');
    assert("timeout_ms"@[0] == 't');
    if let Some(s) = element {
        lemma_is_blank(s);
    }
    if let Some(s) = role {
        lemma_is_blank(s);
    }
    if let Some(s) = selector {
        lemma_is_blank(s);
    }
}

/// A page comes into question exactly if the pattern is found in its address, in the whole of it
/// and as it is; pages come into question each by itself, and stay in their order.
pub proof fn whole_addresses_are_searched(
    page: LiveTarget,
    earlier: Seq<LiveTarget>,
    later: Seq<LiveTarget>,
    pattern: Seq<char>,
)
    ensures
        pattern::regex_matches(pattern, false, false, page.url@).len() > 0 ==> matching(
            seq![page],
            pattern,
        ) == seq![page],
        pattern::regex_matches(pattern, false, false, page.url@).len() == 0 ==> matching(
            seq![page],
            pattern,
        ) == Seq::<LiveTarget>::empty(),
        matching(earlier + later, pattern) == matching(earlier, pattern) + matching(later, pattern),
        matching(earlier, pattern).contains(page) <==> earlier.contains(page)
            && pattern::regex_matches(pattern, false, false, page.url@).len() > 0,
    decreases later.len(),
{
    reveal(Seq::filter);
    assert(seq![page].drop_last() == Seq::<LiveTarget>::empty());
    assert(matching(Seq::empty(), pattern) == Seq::<LiveTarget>::empty());
    assert(Seq::<LiveTarget>::empty().push(page) == seq![page]);
    if later.len() == 0 {
        assert(earlier + later == earlier);
        assert(matching(earlier, pattern) + matching(later, pattern) == matching(earlier, pattern));
    } else {
        whole_addresses_are_searched(page, earlier, later.drop_last(), pattern);
        assert((earlier + later).drop_last() == earlier + later.drop_last());
    }
    lemma_matching_contains(page, earlier, pattern);
}

proof fn lemma_matching_contains(page: LiveTarget, targets: Seq<LiveTarget>, pattern: Seq<char>)
    ensures
        matching(targets, pattern).contains(page) <==> targets.contains(page)
            && pattern::regex_matches(pattern, false, false, page.url@).len() > 0,
    decreases targets.len(),
{
    reveal(Seq::filter);
    if targets.len() > 0 {
        let front = targets.drop_last();
        let last = targets.last();
        let before = matching(front, pattern);
        let all = matching(targets, pattern);
        lemma_matching_contains(page, front, pattern);
        if targets.contains(page) && !front.contains(page) {
            let i = choose|i: int| 0 <= i < targets.len() && targets[i] == page;
            if i < front.len() {
                assert(front[i] == page);
            }
            assert(last == page);
        }
        if front.contains(page) {
            let i = choose|i: int| 0 <= i < front.len() && front[i] == page;
            assert(targets[i] == page);
        }
        if all.contains(page) && !before.contains(page) {
            let i = choose|i: int| 0 <= i < all.len() && all[i] == page;
            if i < before.len() {
                assert(before[i] == page);
            }
            assert(last == page);
        }
        if before.contains(page) {
            let i = choose|i: int| 0 <= i < before.len() && before[i] == page;
            assert(all[i] == page);
        }
        if last == page && pattern::found(pattern, page.url@) {
            assert(all[all.len() - 1] == page);
        }
        if last == page {
            assert(targets[targets.len() - 1] == page);
        }
    }
}

/// A choice that is refused says why: what was looked for, and, where there are several pages, how
/// many there are, the addresses of the first five, and what to do.
pub proof fn refused_choices_say_why(
    r: Result<String, ClickError>,
    candidates: Seq<LiveTarget>,
    description: Seq<char>,
    correction: Seq<char>,
)
    requires
        is_unique_choice(r, candidates, description, correction),
    ensures
        candidates.len() == 0 ==> (r matches Err(error) && error.text() == "no live page matched "@
            + description + "; open or select a page and retry"@),
        candidates.len() > 1 ==> {
            &&& r matches Err(ClickError::AmbiguousPages { description: d, count, urls, correction: c })
            &&& d@ == description
            &&& c@ == correction
            &&& count == candidates.len()
            &&& urls@.len() == (if candidates.len() < 5 {
                candidates.len()
            } else {
                5
            })
            &&& forall|i: int| 0 <= i < urls@.len() ==> (#[trigger] urls@[i])@ == candidates[i].url@
        },
{
    if candidates.len() > 1 {
        let urls = r->Err_0->urls;
        assert(text::texts(urls@).len() == first_urls(candidates).len());
        assert forall|i: int| 0 <= i < urls@.len() implies (#[trigger] urls@[i])@
            == candidates[i].url@ by {
            assert(text::texts(urls@)[i] == urls@[i]@);
            assert(text::texts(urls@)[i] == first_urls(candidates)[i]);
            assert(first_urls(candidates)[i] == candidates[i].url@);
        }
    }
}

/// What each error says.
pub proof fn errors_say_what_is_wrong(
    pattern: String,
    reason: String,
    description: String,
    count: usize,
    urls: Vec<String>,
    correction: String,
)
    ensures
        ClickError::ConflictingStrategies.text()
            == "choose one click strategy: positional ELEMENT with optional `--role`, or `--selector`"@,
        ClickError::RoleWithoutElement.text()
            == "`--role` requires positional ELEMENT (the accessible name)"@,
        ClickError::MissingTarget.text()
            == "missing click target; pass visible text/accessibility name as ELEMENT, or use `--selector`"@,
        ClickError::UnsupportedEngine.text()
            == "`browser-control click` requires a Chromium-family browser because Playwright cannot attach to a user-launched Firefox session; select chrome, edge, chromium, or brave"@,
        (ClickError::InvalidTargetPattern { pattern, reason }).text()
            == "invalid `--target` URL regex `"@ + pattern@ + "`"@,
        (ClickError::AmbiguousPages { description, count, urls, correction }).text() == description@
            + " matched "@ + text::decimal(count as nat) + " live pages; refusing to guess ("@
            + text::join(text::texts(urls@), ", "@) + "); "@ + correction@,
{
}

/// How the pages that a pattern is to be found in are referred to.
pub proof fn patterns_are_quoted(pattern: Seq<char>)
    ensures
        pattern_description(pattern) == "URL regex `"@ + pattern + "`"@,
{
}

/// The line for a human reader says what was clicked and how it was found: the role and the
/// element, the element, the selector, or just that it was an element, whichever comes first.
pub proof fn reports_say_what_was_clicked(
    strategy: Seq<char>,
    role: Seq<char>,
    element: Seq<char>,
    selector: Option<Seq<char>>,
    any_role: Option<Seq<char>>,
    other: Seq<char>,
)
    ensures
        click_line(Some(strategy), Some(role), Some(element), selector) == "clicked "@ + role + " "@
            + element + " ("@ + strategy + ")"@,
        click_line(Some(strategy), None, Some(element), selector) == "clicked "@ + element + " ("@
            + strategy + ")"@,
        click_line(Some(strategy), any_role, None, Some(other)) == "clicked selector "@ + other
            + " ("@ + strategy + ")"@,
        click_line(Some(strategy), any_role, None, None) == "clicked element ("@ + strategy + ")"@,
        click_line(None, any_role, Some(element), selector) == click_line(
            Some("unknown"@),
            any_role,
            Some(element),
            selector,
        ),
        click_line(None, any_role, None, selector) == click_line(
            Some("unknown"@),
            any_role,
            None,
            selector,
        ),
        quoted(Some(element)) == Some(debug_text(element)),
        quoted(None) is None,
{
    reveal_strlit("clicked ");
    reveal_strlit("selector ");
    reveal_strlit("clicked selector ");
    reveal_strlit("element");
    reveal_strlit(" (");
    reveal_strlit("clicked element (");
    assert("clicked "@ + (role + " "@ + element) == "clicked "@ + role + " "@ + element);
    assert("clicked "@ + ("selector "@ + other) == "clicked selector "@ + other);
    assert("clicked "@ + "element"@ + " ("@ == "clicked element ("@);
}

} // verus!
