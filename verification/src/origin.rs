//! The headers that tell a server which page a request comes from.

use crate::text;
use vstd::prelude::*;
use vstd::utf8::*;

verus! {

/// The scheme that the `url` crate finds in a text; `None` where the text is no address.
pub uninterp spec fn url_scheme(text: Seq<char>) -> Option<Seq<char>>;

/// The origin that the `url` crate finds in an address, in ASCII.
pub uninterp spec fn url_origin(text: Seq<char>) -> Seq<char>;

/// What the `url` crate writes for an address without its fragment.
pub uninterp spec fn url_without_fragment(text: Seq<char>) -> Seq<char>;

/// The schemes of HTTP.
pub open spec fn is_http(scheme: Seq<char>) -> bool {
    scheme == "http"@ || scheme == "https"@
}

/// An address of HTTP.
pub open spec fn is_http_address(text: Seq<char>) -> bool {
    url_scheme(text) matches Some(scheme) && is_http(scheme)
}

/// An address with a fragment behind it.
pub open spec fn with_fragment(address: Seq<char>, fragment: Seq<char>) -> Seq<char> {
    address + seq!['#'] + fragment
}

/// A text without a fragment that does not end in a space or a control character. The `url` crate
/// drops those at the end of a text, and reads them as part of the address before a fragment.
pub open spec fn is_clean(text: Seq<char>) -> bool {
    &&& !text.contains('#')
    &&& text.len() > 0 ==> text.last() > ' '
}

/// A text that stays as much of an HTTP address as it is when a fragment follows. The `url` crate
/// counts the bytes before a fragment in 32 bits, and takes no fragment behind more of them.
pub open spec fn takes_fragment(text: Seq<char>) -> bool {
    &&& is_clean(text)
    &&& is_http_address(text) ==> encode_utf8(url_without_fragment(text)).len() <= u32::MAX
}

/// `url::Url::parse` and `url::Url::scheme`: the scheme of an address, or `None` for a text that
/// is no address. An HTTP address is one with and without its fragment, and has the same scheme.
#[verifier::external_body]
fn parse_scheme(text: &str) -> (r: Option<String>)
    ensures
        r.deep_view() == url_scheme(text@),
        forall|address: Seq<char>, fragment: Seq<char>|
            text@ == #[trigger] with_fragment(address, fragment) && is_clean(address) && (
            r matches Some(scheme) && is_http(scheme@)) ==> r.deep_view() == url_scheme(address),
        forall|address: Seq<char>, fragment: Seq<char>|
            text@ == #[trigger] with_fragment(address, fragment) && takes_fragment(address)
                && is_http_address(address) ==> r.deep_view() == url_scheme(address),
{
    url::Url::parse(text).ok().map(|url| url.scheme().to_string())
}

/// `url::Url::origin` and `url::Origin::ascii_serialization`, of an HTTP address: its origin,
/// which begins with the scheme and `://`, and which a fragment does not change.
#[verifier::external_body]
fn parse_origin(text: &str) -> (r: String)
    requires
        is_http_address(text@),
    ensures
        r@ == url_origin(text@),
        (url_scheme(text@)->0 + "://"@).is_prefix_of(r@),
        forall|address: Seq<char>, fragment: Seq<char>|
            text@ == #[trigger] with_fragment(address, fragment) && is_clean(address) ==> r@
                == url_origin(address),
{
    url::Url::parse(text).map(|url| url.origin().ascii_serialization()).unwrap_or_default()
}

/// `url::Url::set_fragment` with `None`, and then `to_string`, of an address: the address in its
/// normal form without its fragment. It holds no `#`, which only begins a fragment, and of an HTTP
/// address it is the same whether there was a fragment or not.
#[verifier::external_body]
fn parse_without_fragment(text: &str) -> (r: String)
    requires
        url_scheme(text@) is Some,
    ensures
        r@ == url_without_fragment(text@),
        !r@.contains('#'),
        forall|address: Seq<char>, fragment: Seq<char>|
            text@ == #[trigger] with_fragment(address, fragment) && is_clean(address)
                && is_http_address(text@) ==> r@ == url_without_fragment(address),
{
    let without_fragment = |mut url: url::Url| {
        url.set_fragment(None);
        url.to_string()
    };
    url::Url::parse(text).map(without_fragment).unwrap_or_default()
}

/// Whether a scheme is one of HTTP.
pub fn http_scheme(scheme: &str) -> (r: bool)
    ensures
        r == is_http(scheme@),
{
    let chars = text::chars_of(scheme);
    text::equals(chars.as_slice(), "http") || text::equals(chars.as_slice(), "https")
}

/// The origin and the referrer of a request that is made in the name of a page: those of an HTTP
/// page, the referrer without its fragment, and none for another page.
pub open spec fn context_headers(source_url: Seq<char>) -> (Option<Seq<char>>, Option<Seq<char>>) {
    if is_http_address(source_url) {
        (Some(url_origin(source_url)), Some(url_without_fragment(source_url)))
    } else {
        (None, None)
    }
}

/// The origin and the referrer of a request that is made in the name of a page: those of an HTTP
/// page, the referrer without its fragment, and none for another page. What the fragment of the
/// page's address holds changes neither.
pub fn request_context_headers(source_url: &str) -> (r: (Option<String>, Option<String>))
    ensures
        (r.0.deep_view(), r.1.deep_view()) == context_headers(source_url@),
        r.0 matches Some(origin) ==> "http://"@.is_prefix_of(origin@) || "https://"@.is_prefix_of(
            origin@,
        ),
        r.1 matches Some(referer) ==> !referer@.contains('#'),
        forall|address: Seq<char>, fragment: Seq<char>|
            source_url@ == #[trigger] with_fragment(address, fragment) && takes_fragment(address)
                ==> (r.0.deep_view(), r.1.deep_view()) == context_headers(address),
{
    match parse_scheme(source_url) {
        Some(scheme) => if http_scheme(scheme.as_str()) {
            let origin = parse_origin(source_url);
            let referer = parse_without_fragment(source_url);
            proof {
                reveal_strlit("http");
                reveal_strlit("https");
                reveal_strlit("://");
                reveal_strlit("http://");
                reveal_strlit("https://");
                assert("http"@ + "://"@ == "http://"@);
                assert("https"@ + "://"@ == "https://"@);
            }
            (Some(origin), Some(referer))
        } else {
            (None, None)
        },
        None => (None, None),
    }
}

/// An address of HTTP, with or without encryption, gives both headers, and no other text gives one:
/// the origin of the address, and the address without its fragment.
pub proof fn headers_come_with_http(source_url: Seq<char>)
    ensures
        url_scheme(source_url) == Some("http"@) || url_scheme(source_url) == Some("https"@)
            ==> context_headers(source_url) == (
            Some(url_origin(source_url)),
            Some(url_without_fragment(source_url)),
        ),
        url_scheme(source_url) != Some("http"@) && url_scheme(source_url) != Some("https"@)
            ==> context_headers(source_url) == (None::<Seq<char>>, None::<Seq<char>>),
{
}

/// HTTP has two schemes.
pub proof fn http_has_two_schemes(scheme: Seq<char>)
    ensures
        is_http(scheme) <==> scheme == "http"@ || scheme == "https"@,
{
}

} // verus!
