use browser_control::click::{
    build_click_params, check_click_engine, choose_unique_target, click_request, click_route,
    describe_click, format_click_output, resolve_click_target, ClickError, ClickRoute, Engine,
};
use browser_control::targets::{context_target, LiveTarget};
use serde_json::Value;

fn page(id: &str, url: &str, title: &str) -> LiveTarget {
    LiveTarget { id: id.into(), url: url.into(), title: title.into() }
}

fn object(entries: Vec<(&str, Value)>) -> Value {
    let mut map = serde_json::Map::new();
    for (key, value) in entries {
        map.insert(key.to_string(), value);
    }
    Value::Object(map)
}

#[test]
fn semantic_click_builds_role_and_name() {
    let params = build_click_params(
        Some("Sign in".into()),
        Some("button".into()),
        None,
        false,
        false,
        "left".into(),
        vec![],
        10_000,
    )
    .unwrap();
    assert_eq!(params["element"], "Sign in");
    assert_eq!(params["role"], "button");
    assert_eq!(params["exact"], true);
    assert_eq!(params["button"], "left");
}

#[test]
fn selector_and_semantic_target_conflict() {
    let err = build_click_params(
        Some("Save".into()),
        None,
        Some("#save".into()),
        false,
        false,
        "left".into(),
        vec![],
        10_000,
    )
    .unwrap_err();
    assert!(err.message().contains("choose one click strategy"));
}

#[test]
fn role_requires_element() {
    let err = build_click_params(
        None,
        Some("button".into()),
        None,
        false,
        false,
        "left".into(),
        vec![],
        10_000,
    )
    .unwrap_err();
    assert!(err.message().contains("requires positional ELEMENT"));
}

#[test]
fn multiple_pages_are_rejected() {
    let candidates = vec![
        LiveTarget {
            id: "A".into(),
            url: "https://one.example/".into(),
            title: "One".into(),
        },
        LiveTarget {
            id: "B".into(),
            url: "https://two.example/".into(),
            title: "Two".into(),
        },
    ];
    let err = choose_unique_target(candidates, "browser", "name a tab").unwrap_err();
    assert!(err.message().contains("refusing to guess"));
    assert!(err.message().contains("https://one.example/"));
}

#[test]
fn human_output_reports_resolved_strategy() {
    let value = object(vec![
        ("ok", Value::Bool(true)),
        ("strategy", Value::from("role")),
        ("role", Value::from("button")),
        ("element", Value::from("Sign in")),
    ]);
    assert_eq!(
        format_click_output(&value, false),
        "clicked button \"Sign in\" (role)"
    );
}

#[test]
fn every_parameter_of_a_selector_click() {
    let params = build_click_params(
        Some("  \t".into()),
        Some("\u{a0}\n".into()),
        Some(" #save ".into()),
        true,
        true,
        "middle".into(),
        vec!["Shift".into(), "Alt".into()],
        u64::MAX,
    )
    .unwrap();
    let expected = object(vec![
        ("selector", Value::from(" #save ")),
        ("exact", Value::Bool(false)),
        ("double_click", Value::Bool(true)),
        ("button", Value::from("middle")),
        ("modifiers", Value::Array(vec![Value::from("Shift"), Value::from("Alt")])),
        ("timeout_ms", Value::from(u64::MAX)),
    ]);
    assert_eq!(Value::Object(params), expected);
}

#[test]
fn a_click_without_modifiers_has_no_such_key() {
    let params =
        build_click_params(Some("Go".into()), None, None, false, false, "left".into(), vec![], 5)
            .unwrap();
    assert!(!params.contains_key("modifiers"));
    assert!(!params.contains_key("role"));
    assert!(!params.contains_key("selector"));
    assert_eq!(params["double_click"], false);
    assert_eq!(params["timeout_ms"], 5);
}

#[test]
fn refusals_and_their_messages() {
    let refuse = |element: Option<&str>, role: Option<&str>, selector: Option<&str>| {
        build_click_params(
            element.map(String::from),
            role.map(String::from),
            selector.map(String::from),
            false,
            false,
            "left".into(),
            vec![],
            1,
        )
        .unwrap_err()
        .message()
    };
    assert_eq!(
        refuse(None, Some("button"), Some("#a")),
        "choose one click strategy: positional ELEMENT with optional `--role`, or `--selector`"
    );
    assert_eq!(
        refuse(Some(" "), Some("button"), None),
        "`--role` requires positional ELEMENT (the accessible name)"
    );
    assert_eq!(
        refuse(None, None, Some("  ")),
        "missing click target; pass visible text/accessibility name as ELEMENT, or use `--selector`"
    );
    assert!(matches!(check_click_engine(Engine::Cdp), Ok(())));
    assert_eq!(
        check_click_engine(Engine::Bidi).unwrap_err().message(),
        "`browser-control click` requires a Chromium-family browser because Playwright cannot \
         attach to a user-launched Firefox session; select chrome, edge, chromium, or brave"
    );
}

#[test]
fn the_only_page_is_chosen() {
    let chosen = choose_unique_target(vec![page("A", "https://one.example/", "One")], "x", "y");
    assert_eq!(chosen.unwrap(), "A");
}

#[test]
fn no_page_is_an_error() {
    let err = choose_unique_target(vec![], "the selected browser", "y").unwrap_err();
    assert_eq!(
        err.message(),
        "no live page matched the selected browser; open or select a page and retry"
    );
}

#[test]
fn five_addresses_are_listed_at_most() {
    let pages = (1..=7).map(|i| page("id", &format!("u{}", i), "t")).collect::<Vec<_>>();
    let err = choose_unique_target(pages, "all", "pick one").unwrap_err();
    assert_eq!(
        err.message(),
        "all matched 7 live pages; refusing to guess (u1, u2, u3, u4, u5); pick one"
    );
}

#[test]
fn a_pattern_selects_by_address() {
    let pages = || {
        vec![
            page("A", "https://shop.example/checkout", "Checkout"),
            page("B", "https://shop.example/cart", "Cart"),
            page("C", "https://docs.example/checkout", "Docs"),
        ]
    };
    let only = resolve_click_target(pages(), Some("^https://shop\\.example/checkout"));
    assert_eq!(only.unwrap(), "A");
    let err = resolve_click_target(pages(), Some("checkout")).unwrap_err();
    assert_eq!(
        err.message(),
        "URL regex `checkout` matched 2 live pages; refusing to guess \
         (https://shop.example/checkout, https://docs.example/checkout); \
         use a narrower `--target` regex"
    );
    let err = resolve_click_target(pages(), Some("CHECKOUT")).unwrap_err();
    assert_eq!(
        err.message(),
        "no live page matched URL regex `CHECKOUT`; open or select a page and retry"
    );
    let err = resolve_click_target(pages(), None).unwrap_err();
    assert!(err.message().starts_with("the selected browser matched 3 live pages"));
    assert!(err
        .message()
        .ends_with("; use `-b <browser>/<named-tab>` or `--target <url-regex>`"));
}

#[test]
fn a_wrong_pattern_is_an_error_even_without_pages() {
    let err = resolve_click_target(vec![], Some("(")).unwrap_err();
    assert_eq!(err.message(), "invalid `--target` URL regex `(`");
    match err {
        ClickError::InvalidTargetPattern { pattern, reason } => {
            assert_eq!(pattern, "(");
            assert!(reason.contains("unclosed group"));
        }
        other => panic!("{:?}", other),
    }
}

#[test]
fn routes() {
    assert!(matches!(
        click_route(Some("checkout".into()), None),
        ClickRoute::NamedTab(name) if name == "checkout"
    ));
    assert!(matches!(
        click_route(None, Some("x".into())),
        ClickRoute::LivePages(Some(pattern)) if pattern == "x"
    ));
    assert!(matches!(click_route(None, None), ClickRoute::LivePages(None)));
}

#[test]
fn a_request_names_its_page() {
    let params =
        build_click_params(Some("Go".into()), None, None, false, false, "left".into(), vec![], 5)
            .unwrap();
    let request = click_request(params, "T1".into());
    assert_eq!(request["target_id"], "T1");
    assert_eq!(request["element"], "Go");
}

#[test]
fn descriptions_of_a_click() {
    let value = object(vec![("element", Value::from("say \"hi\"\n"))]);
    assert_eq!(format_click_output(&value, false), "clicked \"say \\\"hi\\\"\\n\" (unknown)");
    let value = object(vec![
        ("role", Value::from("button")),
        ("selector", Value::from("#a")),
        ("strategy", Value::from("selector")),
    ]);
    assert_eq!(format_click_output(&value, false), "clicked selector \"#a\" (selector)");
    assert_eq!(format_click_output(&Value::Null, false), "clicked element (unknown)");
    let value = object(vec![("element", Value::from(3)), ("strategy", Value::Bool(true))]);
    assert_eq!(format_click_output(&value, false), "clicked element (unknown)");
    assert_eq!(
        describe_click(Some("text"), None, Some("\"A\""), Some("\"b\"")),
        "clicked \"A\" (text)"
    );
}

#[test]
fn json_output_is_the_whole_result() {
    let value = object(vec![("b", Value::from(1)), ("a", Value::from("x"))]);
    assert_eq!(format_click_output(&value, true), "{\n  \"a\": \"x\",\n  \"b\": 1\n}");
}

#[test]
fn the_context_of_a_request() {
    let pages = vec![page("A", "u1", "1"), page("B", "u2", "2"), page("B", "u3", "3")];
    assert_eq!(context_target(&pages, Some("B")).unwrap().url, "u2");
    assert_eq!(context_target(&pages, Some("Z")).unwrap().url, "u1");
    assert_eq!(context_target(&pages, None).unwrap().url, "u1");
    assert!(context_target(&[], Some("B")).is_none());
}

#[test]
fn printed_results_parse_back() {
    let mut details = serde_json::Map::new();
    details.insert("quote \" and \u{e4}".into(), Value::from(vec!["a\n", "", "\\"]));
    details.insert("numbers".into(), Value::from(vec![0_i64, -7, i64::MAX]));
    details.insert("empty".into(), Value::Object(serde_json::Map::new()));
    for value in [
        Value::Object(details),
        Value::Null,
        Value::from(true),
        Value::from("null"),
        Value::Array(vec![]),
        Value::from(1.5),
    ] {
        let printed = format_click_output(&value, true);
        assert_eq!(serde_json::from_str::<Value>(&printed).unwrap(), value);
    }
}
