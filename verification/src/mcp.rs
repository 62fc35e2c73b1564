//! The result of a curl run as a tool result.

use crate::blob;
use crate::curl::CurlOutput;
use crate::headers;
use crate::html;
use crate::json;
use crate::json::Json;
use crate::text;
use crate::utf8;
use vstd::prelude::*;
use vstd::utf8::*;

verus! {

// ---------------------------------------------------------------------------------------------
// The items of a tool result

/// An item with text.
pub open spec fn text_item(text: Seq<char>) -> Json {
    Json::Object(map!["type"@ => Json::Text("text"@), "text"@ => Json::Text(text)])
}

/// An item with bytes.
pub open spec fn resource_item(data: Seq<u8>) -> Json {
    Json::Object(
        map![
            "type"@ => Json::Text("resource"@),
            "resource"@ => Json::Object(map![
                "uri"@ => Json::Text("browser-control://curl/response"@),
                "mimeType"@ => Json::Text("application/octet-stream"@),
                "blob"@ => Json::Text(blob::base64_text(data)),
            ]),
        ],
    )
}

fn text_value(text: String) -> (r: serde_json::Value)
    ensures
        json::json_model(r) == text_item(text@),
{
    let mut item = serde_json::Map::new();
    json::put(&mut item, "type", json::json_text("text".to_string()));
    json::put(&mut item, "text", json::json_text(text));
    json::json_object(item)
}

fn resource_value(data: &[u8]) -> (r: serde_json::Value)
    requires
        blob::text_len(data@.len() as int) <= isize::MAX,
    ensures
        json::json_model(r) == resource_item(data@),
{
    let mut resource = serde_json::Map::new();
    json::put(
        &mut resource,
        "uri",
        json::json_text("browser-control://curl/response".to_string()),
    );
    json::put(
        &mut resource,
        "mimeType",
        json::json_text("application/octet-stream".to_string()),
    );
    json::put(&mut resource, "blob", json::json_text(blob::base64_encode(data)));
    let mut item = serde_json::Map::new();
    json::put(&mut item, "type", json::json_text("resource".to_string()));
    json::put(&mut item, "resource", json::json_object(resource));
    json::json_object(item)
}

// ---------------------------------------------------------------------------------------------
// The tool result

/// Whether curl succeeded.
pub open spec fn succeeded(output: CurlOutput) -> bool {
    output.exit_code == Some(0i32)
}

/// Whether the output is shown as the readable text of a page.
pub open spec fn shows_preview(output: CurlOutput) -> bool {
    &&& output.stdout@.len() > 0
    &&& valid_utf8(output.stdout@)
    &&& succeeded(output)
    &&& output.summarize_html
    &&& headers::is_html(output.content_type.deep_view())
}

/// The whole summary of the page.
pub open spec fn page_summary(output: CurlOutput) -> Seq<char> {
    html::html_summary(
        decode_utf8(output.stdout@),
        output.request_url.deep_view(),
        output.http_status,
        output.content_type.deep_view(),
        output.stdout@.len(),
    )
}

/// The items for the output: none where there is none, readable text for a page, the text itself
/// for other text, and the bytes for anything else.
pub open spec fn body_items(output: CurlOutput) -> Seq<Json> {
    if output.stdout@.len() == 0 {
        seq![]
    } else if shows_preview(output) {
        seq![text_item(html::preview(page_summary(output)))]
    } else if valid_utf8(output.stdout@) {
        seq![text_item(decode_utf8(output.stdout@))]
    } else {
        seq![resource_item(output.stdout@)]
    }
}

/// What there is to say about the run.
pub open spec fn metadata(output: CurlOutput) -> Json {
    let preview = html::preview(page_summary(output));
    Json::Object(
        map![
            "exit_code"@ => json::integer_or_null(match output.exit_code {
                Some(code) => Some(code as int),
                None => None,
            }),
            "stdout_bytes"@ => Json::Integer(output.stdout@.len() as int),
            "stderr"@ => Json::Text(utf8::lossy(output.stderr@)),
            "stderr_truncated"@ => Json::Bool(output.stderr_truncated),
            "url"@ => json::text_or_null(output.request_url.deep_view()),
            "http_status"@ => json::integer_or_null(match output.http_status {
                Some(status) => Some(status as int),
                None => None,
            }),
            "content_type"@ => json::text_or_null(output.content_type.deep_view()),
            "html_preview_bytes"@ => json::integer_or_null(if shows_preview(output) {
                Some(encode_utf8(preview).len() as int)
            } else {
                None
            }),
            "html_preview_truncated"@ => Json::Bool(
                shows_preview(output) && html::overlong(page_summary(output)),
            ),
        ],
    )
}

/// The items of the tool result: those for the output, and then what there is to say about the
/// run.
pub open spec fn content(output: CurlOutput) -> Seq<Json> {
    body_items(output).push(text_item(json::pretty_json(metadata(output))))
}

/// The tool result.
pub open spec fn tool_result(output: CurlOutput) -> Json {
    Json::Object(
        map![
            "content"@ => Json::Array(content(output)),
            "isError"@ => Json::Bool(!succeeded(output)),
        ],
    )
}

fn optional_number(n: Option<u64>) -> (r: serde_json::Value)
    ensures
        json::json_model(r) == json::integer_or_null(
            match n {
                Some(n) => Some(n as int),
                None => None,
            },
        ),
{
    match n {
        Some(n) => json::json_unsigned(n),
        None => json::json_null(),
    }
}

/// The tool result for a finished run of curl. An HTML page is shown as bounded readable text,
/// unless the caller asked for raw output or curl failed; other text and other bytes stay what
/// they are.
pub fn mcp_result(output: CurlOutput) -> (r: serde_json::Value)
    requires
        !valid_utf8(output.stdout@) ==> blob::text_len(output.stdout@.len() as int) <= isize::MAX,
    ensures
        json::json_model(r) == tool_result(output),
        valid_utf8(output.stderr@) ==> utf8::lossy(output.stderr@) == decode_utf8(output.stderr@),
{
    let success = match output.exit_code {
        Some(code) => code == 0,
        None => false,
    };
    let mut items: Vec<serde_json::Value> = Vec::new();
    let mut preview_bytes: Option<u64> = None;
    let mut preview_truncated = false;
    if output.stdout.len() > 0 {
        match core::str::from_utf8(output.stdout.as_slice()) {
            Ok(text) => {
                if success && output.summarize_html && headers::is_html_content_type(
                    text::borrowed(&output.content_type),
                ) {
                    let (preview, truncated) = html::html_preview(
                        text,
                        text::borrowed(&output.request_url),
                        output.http_status,
                        text::borrowed(&output.content_type),
                        output.stdout.len(),
                    );
                    preview_bytes = Some(utf8::byte_len(preview.as_str()) as u64);
                    preview_truncated = truncated;
                    items.push(text_value(preview));
                } else {
                    items.push(text_value(text.to_string()));
                }
            },
            Err(_) => {
                items.push(resource_value(output.stdout.as_slice()));
            },
        }
    }
    assert(json::json_models(items@) == body_items(output));
    let mut about = serde_json::Map::new();
    json::put(
        &mut about,
        "exit_code",
        match output.exit_code {
            Some(code) => json::json_signed(code),
            None => json::json_null(),
        },
    );
    json::put(&mut about, "stdout_bytes", json::json_unsigned(output.stdout.len() as u64));
    json::put(&mut about, "stderr", json::json_text(utf8::lossy_text(output.stderr.as_slice())));
    json::put(&mut about, "stderr_truncated", json::json_bool(output.stderr_truncated));
    json::put(&mut about, "url", json::optional_text(output.request_url));
    json::put(
        &mut about,
        "http_status",
        match output.http_status {
            Some(status) => json::json_unsigned(status as u64),
            None => json::json_null(),
        },
    );
    json::put(&mut about, "content_type", json::optional_text(output.content_type));
    json::put(&mut about, "html_preview_bytes", optional_number(preview_bytes));
    json::put(&mut about, "html_preview_truncated", json::json_bool(preview_truncated));
    let about = json::json_object(about);
    assert(json::json_model(about) == metadata(output));
    items.push(text_value(json::json_pretty(&about)));
    assert(json::json_models(items@) == content(output));
    let mut result = serde_json::Map::new();
    json::put(&mut result, "content", json::json_array(items));
    json::put(&mut result, "isError", json::json_bool(!success));
    json::json_object(result)
}

// ---------------------------------------------------------------------------------------------
// What holds of all tool results

/// A run is marked as an error exactly if curl did not succeed, and the output of such a run is
/// never shown as readable text. Nor is that of a run for which raw output was asked.
pub proof fn failed_and_raw_runs_are_not_projected(output: CurlOutput)
    ensures
        tool_result(output) matches Json::Object(entries) && entries["isError"@] == Json::Bool(
            output.exit_code != Some(0i32),
        ),
        !succeeded(output) || !output.summarize_html ==> !shows_preview(output),
{
    reveal_strlit("content");
    reveal_strlit("isError");
    assert("content"@[0] == 'c' && "isError"@[0] == 'i');
}

/// A tool result ends in what there is to say about the run, and holds at most one item before it.
pub proof fn what_is_known_comes_last(output: CurlOutput)
    ensures
        content(output).last() == text_item(json::pretty_json(metadata(output))),
        1 <= content(output).len() <= 2,
        content(output).len() == 1 <==> output.stdout@.len() == 0,
{
}

/// Output that is not shown as readable text keeps every byte: from the items for it, the bytes
/// can be told.
pub proof fn unprojected_output_keeps_every_byte(a: CurlOutput, b: CurlOutput)
    requires
        !shows_preview(a),
        !shows_preview(b),
        body_items(a) == body_items(b),
    ensures
        a.stdout@ == b.stdout@,
{
    let x = a.stdout@;
    let y = b.stdout@;
    lemma_unprojected_items(a);
    lemma_unprojected_items(b);
    if x.len() == 0 || y.len() == 0 {
        assert(x =~= y);
    } else if valid_utf8(x) {
        lemma_items_differ(decode_utf8(x), y);
        lemma_text_of_item(decode_utf8(x));
        lemma_text_of_item(decode_utf8(y));
        decode_utf8_encode_utf8(x);
        decode_utf8_encode_utf8(y);
    } else {
        lemma_items_differ(decode_utf8(y), x);
        lemma_blob_of_item(x);
        lemma_blob_of_item(y);
        blob::base64_text_keeps_every_byte(x, y);
    }
}

proof fn lemma_unprojected_items(output: CurlOutput)
    requires
        !shows_preview(output),
    ensures
        body_items(output).len() == (if output.stdout@.len() == 0 {
            0int
        } else {
            1
        }),
        output.stdout@.len() > 0 && valid_utf8(output.stdout@) ==> body_items(output)[0]
            == text_item(decode_utf8(output.stdout@)),
        output.stdout@.len() > 0 && !valid_utf8(output.stdout@) ==> body_items(output)[0]
            == resource_item(output.stdout@),
{
}

proof fn lemma_text_of_item(text: Seq<char>)
    ensures
        json::text_under(text_item(text), "text"@) == Some(text),
        json::text_under(text_item(text), "type"@) == Some("text"@),
{
    reveal_strlit("type");
    reveal_strlit("text");
    assert("type"@[1] == 'y' && "text"@[1] == 'e');
}

/// The bytes of an item, in Base64.
spec fn blob_of(item: Json) -> Option<Seq<char>> {
    match item {
        Json::Object(entries) => json::text_under(entries["resource"@], "blob"@),
        _ => None,
    }
}

proof fn lemma_blob_of_item(data: Seq<u8>)
    ensures
        blob_of(resource_item(data)) == Some(blob::base64_text(data)),
        json::text_under(resource_item(data), "type"@) == Some("resource"@),
{
    reveal_strlit("type");
    reveal_strlit("resource");
    reveal_strlit("uri");
    reveal_strlit("mimeType");
    reveal_strlit("blob");
    assert("type"@[0] == 't' && "resource"@[0] == 'r');
    assert("uri"@[0] == 'u' && "mimeType"@[0] == 'm' && "blob"@[0] == 'b');
}

proof fn lemma_items_differ(text: Seq<char>, data: Seq<u8>)
    ensures
        text_item(text) != resource_item(data),
{
    lemma_text_of_item(text);
    lemma_blob_of_item(data);
    reveal_strlit("text");
    reveal_strlit("resource");
    assert("text"@.len() == 4 && "resource"@.len() == 8);
}

/// A page is shown as one item with text, which never takes more bytes than the limit for a
/// preview, however long the page is.
pub proof fn shown_pages_are_bounded(output: CurlOutput)
    requires
        shows_preview(output),
    ensures
        ({
            let preview = html::preview(page_summary(output));
            &&& body_items(output) == seq![text_item(preview)]
            &&& encode_utf8(preview).len() <= html::MCP_HTML_PREVIEW_LIMIT
        }),
{
    html::preview_is_bounded(page_summary(output));
}

/// What an item with text and an item with bytes hold.
pub proof fn items_hold_text_or_bytes(text: Seq<char>, data: Seq<u8>)
    ensures
        text_item(text) == Json::Object(
            map!["type"@ => Json::Text("text"@), "text"@ => Json::Text(text)],
        ),
        resource_item(data) == Json::Object(
            map![
                "type"@ => Json::Text("resource"@),
                "resource"@ => Json::Object(map![
                    "uri"@ => Json::Text("browser-control://curl/response"@),
                    "mimeType"@ => Json::Text("application/octet-stream"@),
                    "blob"@ => Json::Text(blob::base64_text(data)),
                ]),
            ],
        ),
{
}

/// What is shown of the output: an HTML page, of a run that succeeded and for which no raw output was
/// asked, as its preview; any other text as it is; anything else as bytes; and no output as nothing.
pub proof fn output_is_shown(output: CurlOutput)
    ensures
        ({
            let page = output.exit_code == Some(0i32) && output.summarize_html && headers::is_html(
                output.content_type.deep_view(),
            );
            let items = content(output);
            &&& output.stdout@.len() == 0 ==> items.len() == 1
            &&& output.stdout@.len() > 0 && valid_utf8(output.stdout@) && page ==> items[0]
                == text_item(
                html::preview(
                    html::html_summary(
                        decode_utf8(output.stdout@),
                        output.request_url.deep_view(),
                        output.http_status,
                        output.content_type.deep_view(),
                        output.stdout@.len(),
                    ),
                ),
            )
            &&& output.stdout@.len() > 0 && valid_utf8(output.stdout@) && !page ==> items[0]
                == text_item(decode_utf8(output.stdout@))
            &&& output.stdout@.len() > 0 && !valid_utf8(output.stdout@) ==> items[0]
                == resource_item(output.stdout@)
            &&& items.len() <= 2
        }),
        tool_result(output) == Json::Object(
            map![
                "content"@ => Json::Array(content(output)),
                "isError"@ => Json::Bool(output.exit_code != Some(0i32)),
            ],
        ),
{
}

/// What is said about a run: its exit code, the sizes, its diagnostics, the address, the status and
/// the media type, each under its name, and `null` for what is not known.
pub proof fn everything_known_is_said(output: CurlOutput)
    ensures
        ({
            let page = output.stdout@.len() > 0 && valid_utf8(output.stdout@) && output.exit_code
                == Some(0i32) && output.summarize_html && headers::is_html(
                output.content_type.deep_view(),
            );
            let summary = html::html_summary(
                decode_utf8(output.stdout@),
                output.request_url.deep_view(),
                output.http_status,
                output.content_type.deep_view(),
                output.stdout@.len(),
            );
            metadata(output) == Json::Object(
                map![
                    "exit_code"@ => (match output.exit_code {
                        Some(code) => Json::Integer(code as int),
                        None => Json::Null,
                    }),
                    "stdout_bytes"@ => Json::Integer(output.stdout@.len() as int),
                    "stderr"@ => Json::Text(utf8::lossy(output.stderr@)),
                    "stderr_truncated"@ => Json::Bool(output.stderr_truncated),
                    "url"@ => (match output.request_url {
                        Some(url) => Json::Text(url@),
                        None => Json::Null,
                    }),
                    "http_status"@ => (match output.http_status {
                        Some(status) => Json::Integer(status as int),
                        None => Json::Null,
                    }),
                    "content_type"@ => (match output.content_type {
                        Some(content_type) => Json::Text(content_type@),
                        None => Json::Null,
                    }),
                    "html_preview_bytes"@ => (if page {
                        Json::Integer(encode_utf8(html::preview(summary)).len() as int)
                    } else {
                        Json::Null
                    }),
                    "html_preview_truncated"@ => Json::Bool(
                        page && encode_utf8(summary).len() > 32768,
                    ),
                ],
            )
        }),
{
}

} // verus!
