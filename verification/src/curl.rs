//! Running curl with the credentials of a browser: its arguments, and what its run amounts to.

use crate::arguments;
use crate::capture;
use crate::capture::ResponseBody;
use crate::headers;
use crate::origin;
use crate::text;
use crate::utf8;
use vstd::prelude::*;
use vstd::utf8::*;

verus! {

// ---------------------------------------------------------------------------------------------
// What can go wrong

/// Why a request is refused, or has failed.
#[derive(Debug)]
pub enum CurlError {
    /// The command line holds nothing for curl.
    NoCommandLine,
    /// A tool call holds nothing for curl.
    NoToolArguments,
    /// A tab was named, and the browser is not a registered one.
    UnregisteredBrowser,
    /// The response is too large for a tool result.
    ResponseTooLarge,
    /// curl failed; without a code, it was terminated by a signal.
    ExitStatus { code: Option<i32> },
}

impl CurlError {
    /// What the error says.
    pub open spec fn text(self) -> Seq<char> {
        match self {
            CurlError::NoCommandLine =>
                "curl requires arguments; pass curl options and at least one URL"@,
            CurlError::NoToolArguments =>
                "`args` must contain curl options and at least one URL"@,
            CurlError::UnregisteredBrowser =>
                "named tabs (`<browser>/<name>`) require a registered browser"@,
            CurlError::ResponseTooLarge =>
                "curl response exceeded the 8 MiB MCP limit; retry with `-o <path>` or `--output <path>` to stream it directly to a file"@,
            CurlError::ExitStatus { code: Some(code) } =>
                "curl exited with status "@ + text::signed_decimal(code as int),
            CurlError::ExitStatus { code: None } =>
                "curl exited with status "@ + "terminated by signal"@,
        }
    }

    /// What the error says.
    pub fn message(&self) -> (r: String)
        ensures
            r@ == self.text(),
    {
        match self {
            CurlError::NoCommandLine =>
                "curl requires arguments; pass curl options and at least one URL".to_string(),
            CurlError::NoToolArguments =>
                "`args` must contain curl options and at least one URL".to_string(),
            CurlError::UnregisteredBrowser =>
                "named tabs (`<browser>/<name>`) require a registered browser".to_string(),
            CurlError::ResponseTooLarge =>
                "curl response exceeded the 8 MiB MCP limit; retry with `-o <path>` or `--output <path>` to stream it directly to a file".to_string(),
            CurlError::ExitStatus { code } => {
                let mut out = "curl exited with status ".to_string();
                match code {
                    Some(code) => {
                        text::push_signed_decimal(&mut out, *code);
                    },
                    None => {
                        out.append("terminated by signal");
                    },
                }
                out
            },
        }
    }
}

// ---------------------------------------------------------------------------------------------
// Where the credentials come from

/// Where a browser is known from.
#[derive(Debug)]
pub enum BrowserSource {
    /// From the registry, under a name.
    Registered { name: String },
    /// From an endpoint that was given.
    External,
}

/// What a request draws its credentials from.
#[derive(Debug)]
pub enum CurlRoute {
    /// From a tab that has a name, in a registered browser.
    NamedTab { browser: String, name: String },
    /// From the browser as a whole.
    BrowserWide,
}

/// What a request draws its credentials from. Only a registered browser has tabs with names.
pub fn curl_route(tab_name: Option<String>, source: BrowserSource) -> (r: Result<
    CurlRoute,
    CurlError,
>)
    ensures
        match (tab_name, source) {
            (None, _) => r matches Ok(route) && route == CurlRoute::BrowserWide,
            (Some(name), BrowserSource::Registered { name: browser }) => {
                r matches Ok(route) && route == (CurlRoute::NamedTab { browser, name })
            },
            (Some(_), BrowserSource::External) => {
                r matches Err(error) && error == CurlError::UnregisteredBrowser
            },
        },
{
    match tab_name {
        Some(name) => match source {
            BrowserSource::Registered { name: browser } => Ok(
                CurlRoute::NamedTab { browser, name },
            ),
            BrowserSource::External => Err(CurlError::UnregisteredBrowser),
        },
        None => Ok(CurlRoute::BrowserWide),
    }
}

/// What curl gets from a browser. `P` is what stands for a file.
#[derive(Debug)]
pub struct PreparedCurl<P> {
    /// The file with the cookies of the browser.
    pub cookie_jar: P,
    /// What the browser calls itself.
    pub user_agent: String,
    /// The origin of the page that the request is made in the name of.
    pub origin: Option<String>,
    /// The address of that page.
    pub referer: Option<String>,
}

/// One argument of a curl command. `P` is what stands for a file, and `T` for an argument of the
/// caller.
#[derive(Debug)]
pub enum CurlArg<'a, P, T> {
    /// A word of the library's own.
    Word(String),
    /// The path of a file.
    File(&'a P),
    /// An argument of the caller.
    Caller(T),
}

/// What an argument of a curl command says.
pub ghost enum ArgModel<P, T> {
    Word(Seq<char>),
    File(P),
    Caller(T),
}

impl<'a, P, T> CurlArg<'a, P, T> {
    /// What the argument says.
    pub open spec fn model(self) -> ArgModel<P, T> {
        match self {
            CurlArg::Word(word) => ArgModel::Word(word@),
            CurlArg::File(file) => ArgModel::File(*file),
            CurlArg::Caller(arg) => ArgModel::Caller(arg),
        }
    }
}

/// What the arguments of a curl command say.
pub open spec fn models<'a, P, T>(args: Seq<CurlArg<'a, P, T>>) -> Seq<ArgModel<P, T>> {
    Seq::new(args.len(), |i: int| args[i].model())
}

impl<P> PreparedCurl<P> {
    /// What curl gets from a browser: its cookies, its name, and the headers for the page that
    /// the request is made in the name of, if there is one.
    pub fn new(cookie_jar: P, user_agent: String, source_url: Option<&str>) -> (r: Self)
        ensures
            r.cookie_jar == cookie_jar,
            r.user_agent == user_agent,
            (r.origin.deep_view(), r.referer.deep_view()) == (match source_url {
                Some(url) => origin::context_headers(url@),
                None => (None, None),
            }),
            r.referer matches Some(referer) ==> !referer@.contains('#'),
            source_url matches Some(url) ==> forall|address: Seq<char>, fragment: Seq<char>|
                url@ == #[trigger] origin::with_fragment(address, fragment)
                    && origin::takes_fragment(address) ==> (
                r.origin.deep_view(),
                r.referer.deep_view(),
                ) == origin::context_headers(address),
    {
        let (origin, referer) = match source_url {
            Some(url) => origin::request_context_headers(url),
            None => (None, None),
        };
        PreparedCurl { cookie_jar, user_agent, origin, referer }
    }

    /// The arguments that the browser gives: its cookies, its name, the origin and the referrer
    /// as far as they are known, and the file for the headers if they are to be captured.
    pub open spec fn browser_args<T>(self, header_path: Option<P>) -> Seq<ArgModel<P, T>> {
        let args = seq![
            ArgModel::Word("--cookie"@),
            ArgModel::File(self.cookie_jar),
            ArgModel::Word("--user-agent"@),
            ArgModel::Word(self.user_agent@),
        ];
        let args = match self.origin {
            Some(origin) => args + seq![
                ArgModel::Word("--header"@),
                ArgModel::Word("Origin: "@ + origin@),
            ],
            None => args,
        };
        let args = match self.referer {
            Some(referer) => args + seq![
                ArgModel::Word("--referer"@),
                ArgModel::Word(referer@),
            ],
            None => args,
        };
        match header_path {
            Some(path) => args + seq![ArgModel::Word("--dump-header"@), ArgModel::File(path)],
            None => args,
        }
    }

    /// The arguments of the caller as they are.
    pub open spec fn caller_args<T>(args: Seq<T>) -> Seq<ArgModel<P, T>> {
        Seq::new(args.len(), |i: int| ArgModel::Caller(args[i]))
    }

    /// The arguments of a curl command. What the browser gives comes first and counts as a
    /// default; the arguments of the caller follow unchanged, so that they have the last word.
    pub fn command_with_header<'a, T>(&'a self, args: Vec<T>, header_path: Option<&'a P>) -> (r:
        Vec<CurlArg<'a, P, T>>)
        ensures
            models(r@) == self.browser_args::<T>(
                match header_path {
                    Some(path) => Some(*path),
                    None => None,
                },
            ) + Self::caller_args(args@),
    {
        let mut command: Vec<CurlArg<'a, P, T>> = Vec::new();
        command.push(CurlArg::Word("--cookie".to_string()));
        command.push(CurlArg::File(&self.cookie_jar));
        command.push(CurlArg::Word("--user-agent".to_string()));
        command.push(CurlArg::Word(self.user_agent.clone()));
        if let Some(origin) = &self.origin {
            let mut header = "Origin: ".to_string();
            header.append(origin.as_str());
            command.push(CurlArg::Word("--header".to_string()));
            command.push(CurlArg::Word(header));
        }
        if let Some(referer) = &self.referer {
            command.push(CurlArg::Word("--referer".to_string()));
            command.push(CurlArg::Word(referer.clone()));
        }
        if let Some(path) = header_path {
            command.push(CurlArg::Word("--dump-header".to_string()));
            command.push(CurlArg::File(path));
        }
        let ghost given = self.browser_args::<T>(
            match header_path {
                Some(path) => Some(*path),
                None => None,
            },
        );
        assert(models(command@) == given);
        for arg in it: args
            invariant
                it.seq() == args@,
                models(command@) == given + Self::caller_args(args@.take(it.index() as int)),
        {
            let ghost before = models(command@);
            let ghost n = it.index() as int;
            command.push(CurlArg::Caller(arg));
            assert(models(command@) == before.push(ArgModel::Caller(arg)));
            assert(Self::caller_args::<T>(args@.take(n + 1)) == Self::caller_args::<T>(
                args@.take(n),
            ).push(ArgModel::Caller(arg)));
        }
        assert(args@.take(args@.len() as int) == args@);
        command
    }

    /// The arguments of a curl command that captures no headers.
    pub fn command<'a, T>(&'a self, args: Vec<T>) -> (r: Vec<CurlArg<'a, P, T>>)
        ensures
            models(r@) == self.browser_args::<T>(None) + Self::caller_args(args@),
    {
        self.command_with_header(args, None)
    }
}

// ---------------------------------------------------------------------------------------------
// A run on the command line

/// A command line has to hold something for curl.
pub fn check_command_line<T>(args: &[T]) -> (r: Result<(), CurlError>)
    ensures
        args@.len() > 0 ==> r is Ok,
        args@.len() == 0 ==> r == Err::<(), CurlError>(CurlError::NoCommandLine),
{
    if args.len() == 0 {
        Err(CurlError::NoCommandLine)
    } else {
        Ok(())
    }
}

/// What a finished run of curl amounts to.
pub fn check_exit(success: bool, code: Option<i32>) -> (r: Result<(), CurlError>)
    ensures
        success ==> r is Ok,
        !success ==> r == Err::<(), CurlError>(CurlError::ExitStatus { code }),
{
    if success {
        Ok(())
    } else {
        Err(CurlError::ExitStatus { code })
    }
}

// ---------------------------------------------------------------------------------------------
// A run for a tool call

/// What a finished run of curl has given.
#[derive(Debug)]
pub struct CurlOutput {
    /// The exit code; `None` if curl was terminated by a signal.
    pub exit_code: Option<i32>,
    /// What curl wrote to its standard output.
    pub stdout: Vec<u8>,
    /// The beginning of its diagnostics.
    pub stderr: Vec<u8>,
    /// Whether some of the diagnostics were left out.
    pub stderr_truncated: bool,
    /// The address that was asked for.
    pub request_url: Option<String>,
    /// The media type of the response.
    pub content_type: Option<String>,
    /// The status code of the response.
    pub http_status: Option<u16>,
    /// Whether an HTML page is to be shown as readable text.
    pub summarize_html: bool,
}

/// A run of curl for a tool call, while its output arrives.
pub struct ToolRun {
    args: Vec<String>,
    summarize_html: bool,
    body: ResponseBody,
}

/// What the captured headers say; nothing where raw output was asked for, or none were captured.
pub open spec fn captured_headers(
    args: Seq<Seq<char>>,
    headers: Option<Vec<u8>>,
) -> headers::Headers {
    match headers {
        Some(bytes) => if arguments::explicit_raw_output(args) {
            headers::Headers { status: None, content_type: None }
        } else {
            headers::headers_of(utf8::lossy(bytes@))
        },
        None => headers::Headers { status: None, content_type: None },
    }
}

impl ToolRun {
    /// The arguments of the caller.
    pub closed spec fn args(self) -> Seq<Seq<char>> {
        text::texts(self.args@)
    }

    /// The output so far.
    pub closed spec fn stdout(self) -> Seq<u8> {
        self.body@
    }

    #[verifier::type_invariant]
    spec fn wf(self) -> bool {
        self.summarize_html == !arguments::explicit_raw_output(text::texts(self.args@))
    }

    /// A run with the given arguments, of which there has to be one.
    pub fn start(args: Vec<String>) -> (r: Result<ToolRun, CurlError>)
        ensures
            args@.len() == 0 ==> (r matches Err(error) && error == CurlError::NoToolArguments),
            args@.len() > 0 ==> {
                &&& r matches Ok(run)
                &&& run.args() == text::texts(args@)
                &&& run.stdout() == Seq::<u8>::empty()
            },
    {
        if args.len() == 0 {
            return Err(CurlError::NoToolArguments);
        }
        let summarize_html = !arguments::has_explicit_raw_output(args.as_slice());
        Ok(ToolRun { args, summarize_html, body: ResponseBody::new() })
    }

    /// Whether the headers of the response are to be captured.
    pub fn captures_headers(&self) -> (r: bool)
        ensures
            r == !arguments::explicit_raw_output(self.args()),
    {
        proof {
            use_type_invariant(self);
        }
        self.summarize_html
    }

    /// Takes the next piece of output in. A response that gets too large is refused: curl is then
    /// to be stopped.
    pub fn accept(&mut self, chunk: &[u8]) -> (r: Result<(), CurlError>)
        ensures
            final(self).args() == old(self).args(),
            match capture::with_piece(old(self).stdout(), chunk@) {
                Some(stdout) => r is Ok && final(self).stdout() == stdout,
                None => {
                    &&& r matches Err(error) && error == CurlError::ResponseTooLarge
                    &&& final(self).stdout() == old(self).stdout()
                },
            },
    {
        proof {
            use_type_invariant(&*self);
        }
        let mut body = ResponseBody::new();
        std::mem::swap(&mut body, &mut self.body);
        let accepted = body.accept(chunk);
        self.body = body;
        accepted
    }

    /// What the run has given, once curl has ended. `headers` holds the captured headers, if they
    /// could be read; where raw output was asked for there are none to report.
    pub fn finish(
        self,
        exit_code: Option<i32>,
        stderr: Vec<u8>,
        stderr_truncated: bool,
        headers: Option<Vec<u8>>,
    ) -> (r: CurlOutput)
        ensures
            r.exit_code == exit_code,
            r.stdout@ == self.stdout(),
            r.stdout@.len() <= capture::MCP_RESPONSE_LIMIT,
            r.stderr == stderr,
            r.stderr_truncated == stderr_truncated,
            r.request_url.deep_view() == arguments::requested_url(self.args()),
            r.http_status == captured_headers(self.args(), headers).status,
            r.content_type.deep_view() == captured_headers(self.args(), headers).content_type,
            r.summarize_html == !arguments::explicit_raw_output(self.args()),
            arguments::explicit_raw_output(self.args()) ==> r.http_status is None
                && r.content_type is None,
            headers matches Some(bytes) ==> !arguments::explicit_raw_output(self.args())
                && valid_utf8(bytes@) ==> utf8::lossy(bytes@) == decode_utf8(bytes@),
    {
        proof {
            use_type_invariant(&self);
        }
        let (http_status, content_type) = match headers {
            Some(bytes) => if self.summarize_html {
                headers::parse_response_headers(bytes.as_slice())
            } else {
                (None, None)
            },
            None => (None, None),
        };
        CurlOutput {
            exit_code,
            stdout: self.body.into_bytes(),
            stderr,
            stderr_truncated,
            request_url: arguments::request_url(self.args.as_slice()),
            content_type,
            http_status,
            summarize_html: self.summarize_html,
        }
    }
}

// ---------------------------------------------------------------------------------------------
// What holds of all commands

/// The arguments of the caller stand at the end of the command, in their order and unchanged, and
/// all that the browser gives stands before them: where both set an option, the caller's has the
/// last word.
pub proof fn callers_have_the_last_word<P, T>(
    prepared: PreparedCurl<P>,
    header_path: Option<P>,
    args: Seq<T>,
)
    ensures
        ({
            let browser = prepared.browser_args::<T>(header_path);
            let command = browser + PreparedCurl::<P>::caller_args(args);
            &&& command.len() == browser.len() + args.len()
            &&& forall|i: int|
                0 <= i < browser.len() ==> !(#[trigger] command[i] is Caller)
            &&& forall|i: int|
                0 <= i < args.len() ==> #[trigger] command[browser.len() + i]
                    == ArgModel::<P, T>::Caller(args[i])
        }),
{
}

/// What the browser gives is sent whenever it is known, whether headers are captured or not: its
/// cookies and its name first, then the origin, then the referrer. Capturing headers only adds the
/// file for them.
pub proof fn what_is_known_is_sent<P, T>(prepared: PreparedCurl<P>, header_path: Option<P>)
    ensures
        ({
            let args = prepared.browser_args::<T>(header_path);
            let after_origin = if prepared.origin is Some {
                6int
            } else {
                4
            };
            let after_referer = if prepared.referer is Some {
                after_origin + 2
            } else {
                after_origin
            };
            &&& args[0] == ArgModel::<P, T>::Word("--cookie"@)
            &&& args[1] == ArgModel::<P, T>::File(prepared.cookie_jar)
            &&& args[2] == ArgModel::<P, T>::Word("--user-agent"@)
            &&& args[3] == ArgModel::<P, T>::Word(prepared.user_agent@)
            &&& prepared.origin matches Some(origin) ==> args[4] == ArgModel::<P, T>::Word(
                "--header"@,
            ) && args[5] == ArgModel::<P, T>::Word("Origin: "@ + origin@)
            &&& prepared.referer matches Some(referer) ==> args[after_origin] == ArgModel::<
                P,
                T,
            >::Word("--referer"@) && args[after_origin + 1] == ArgModel::<P, T>::Word(referer@)
            &&& header_path matches Some(path) ==> args[after_referer] == ArgModel::<P, T>::Word(
                "--dump-header"@,
            ) && args[after_referer + 1] == ArgModel::<P, T>::File(path)
            &&& args.len() == (if header_path is Some {
                after_referer + 2
            } else {
                after_referer
            })
        }),
        header_path matches Some(path) ==> prepared.browser_args::<T>(header_path)
            == prepared.browser_args::<T>(None) + seq![
            ArgModel::<P, T>::Word("--dump-header"@),
            ArgModel::<P, T>::File(path),
        ],
{
}

/// The headers of a response are read where they were captured, and only where no raw output was
/// asked for.
pub proof fn captured_headers_are_read(args: Seq<Seq<char>>, headers: Option<Vec<u8>>)
    ensures
        headers matches Some(bytes) ==> !arguments::explicit_raw_output(args) ==> captured_headers(
            args,
            headers,
        ) == headers::headers_of(utf8::lossy(bytes@)),
        headers is None || arguments::explicit_raw_output(args) ==> captured_headers(
            args,
            headers,
        ).status is None && captured_headers(args, headers).content_type is None,
{
}

/// What each error says.
pub proof fn errors_say_what_is_wrong(code: i32)
    ensures
        CurlError::NoCommandLine.text()
            == "curl requires arguments; pass curl options and at least one URL"@,
        CurlError::NoToolArguments.text()
            == "`args` must contain curl options and at least one URL"@,
        CurlError::UnregisteredBrowser.text()
            == "named tabs (`<browser>/<name>`) require a registered browser"@,
        CurlError::ResponseTooLarge.text()
            == "curl response exceeded the 8 MiB MCP limit; retry with `-o <path>` or `--output <path>` to stream it directly to a file"@,
        (CurlError::ExitStatus { code: None }).text()
            == "curl exited with status terminated by signal"@,
        code >= 0 ==> (CurlError::ExitStatus { code: Some(code) }).text()
            == "curl exited with status "@ + text::decimal(code as nat),
        code < 0 ==> (CurlError::ExitStatus { code: Some(code) }).text()
            == "curl exited with status -"@ + text::decimal((-code) as nat),
{
    reveal_strlit("curl exited with status ");
    reveal_strlit("curl exited with status -");
    reveal_strlit("terminated by signal");
    reveal_strlit("curl exited with status terminated by signal");
    assert("curl exited with status "@ + "terminated by signal"@
        == "curl exited with status terminated by signal"@);
    if code < 0 {
        assert("curl exited with status "@ + (seq!['-'] + text::decimal((-code) as nat))
            == "curl exited with status -"@ + text::decimal((-code) as nat));
    }
}

/// The arguments of a command say, one by one and in their order, what they hold.
pub proof fn arguments_say_what_they_hold<'a, P, T>(args: Seq<CurlArg<'a, P, T>>, i: int)
    requires
        0 <= i < args.len(),
    ensures
        models(args).len() == args.len(),
        args[i] matches CurlArg::Word(word) ==> models(args)[i] == ArgModel::<P, T>::Word(word@),
        args[i] matches CurlArg::File(file) ==> models(args)[i] == ArgModel::<P, T>::File(*file),
        args[i] matches CurlArg::Caller(arg) ==> models(args)[i] == ArgModel::<P, T>::Caller(arg),
{
}

/// The arguments of the caller say what they are.
pub proof fn callers_are_quoted<P, T>(args: Seq<T>, i: int)
    requires
        0 <= i < args.len(),
    ensures
        PreparedCurl::<P>::caller_args(args).len() == args.len(),
        PreparedCurl::<P>::caller_args(args)[i] == ArgModel::<P, T>::Caller(args[i]),
{
}

} // verus!
