//! What the arguments of a curl command ask for.

use crate::text;
use vstd::prelude::*;
use vstd::slice::slice_subrange;

verus! {

// ---------------------------------------------------------------------------------------------
// Raw output

/// An argument that has curl emit headers, write its output elsewhere, or append to it. The short
/// options that take a value may have it attached.
pub open spec fn asks_for_raw_output(arg: Seq<char>) -> bool {
    ||| arg == "-i"@
    ||| arg == "-I"@
    ||| arg == "--include"@
    ||| arg == "--dump-header"@
    ||| arg == "--head"@
    ||| arg == "-O"@
    ||| arg == "--write-out"@
    ||| arg == "--output"@
    ||| arg == "--remote-name"@
    ||| arg == "--remote-name-all"@
    ||| arg == "--output-dir"@
    ||| "-o"@.is_prefix_of(arg)
    ||| "-D"@.is_prefix_of(arg)
    ||| "-w"@.is_prefix_of(arg)
    ||| "--output="@.is_prefix_of(arg)
    ||| "--dump-header="@.is_prefix_of(arg)
    ||| "--write-out="@.is_prefix_of(arg)
}

fn raw_output(arg: &[char]) -> (r: bool)
    ensures
        r == asks_for_raw_output(arg@),
{
    text::equals(arg, "-i") || text::equals(arg, "-I") || text::equals(arg, "--include") || text::equals(
        arg,
        "--dump-header",
    ) || text::equals(arg, "--head") || text::equals(arg, "-O") || text::equals(arg, "--write-out")
        || text::equals(arg, "--output") || text::equals(arg, "--remote-name") || text::equals(
        arg,
        "--remote-name-all",
    ) || text::equals(arg, "--output-dir") || text::begins_with(arg, "-o") || text::begins_with(
        arg,
        "-D",
    ) || text::begins_with(arg, "-w") || text::begins_with(arg, "--output=")
        || text::begins_with(arg, "--dump-header=") || text::begins_with(arg, "--write-out=")
}

/// Whether some argument asks for raw output.
pub open spec fn explicit_raw_output(args: Seq<Seq<char>>) -> bool {
    exists|i: int| 0 <= i < args.len() && asks_for_raw_output(#[trigger] args[i])
}

/// Whether the caller asked curl to emit headers, to write its output elsewhere, or to append to
/// it, so that the bytes have to be left exactly as curl gives them.
pub fn has_explicit_raw_output(args: &[String]) -> (r: bool)
    ensures
        r == explicit_raw_output(text::texts(args@)),
{
    for i in 0..args.len()
        invariant
            forall|j: int| 0 <= j < i ==> !asks_for_raw_output(#[trigger] text::texts(args@)[j]),
    {
        let arg = text::chars_of(args[i].as_str());
        assert(text::texts(args@)[i as int] == arg@);
        if raw_output(arg.as_slice()) {
            return true;
        }
    }
    false
}

// ---------------------------------------------------------------------------------------------
// The requested address

/// An option whose value is the next argument.
pub open spec fn takes_value(arg: Seq<char>) -> bool {
    ||| arg == "-H"@
    ||| arg == "--header"@
    ||| arg == "-A"@
    ||| arg == "--user-agent"@
    ||| arg == "-e"@
    ||| arg == "--referer"@
    ||| arg == "-o"@
    ||| arg == "--output"@
    ||| arg == "-D"@
    ||| arg == "--dump-header"@
    ||| arg == "-w"@
    ||| arg == "--write-out"@
    ||| arg == "--url"@
}

fn value_follows(arg: &[char]) -> (r: bool)
    ensures
        r == takes_value(arg@),
{
    text::equals(arg, "-H") || text::equals(arg, "--header") || text::equals(arg, "-A") || text::equals(
        arg,
        "--user-agent",
    ) || text::equals(arg, "-e") || text::equals(arg, "--referer") || text::equals(arg, "-o") || text::equals(
        arg,
        "--output",
    ) || text::equals(arg, "-D") || text::equals(arg, "--dump-header") || text::equals(arg, "-w")
        || text::equals(arg, "--write-out") || text::equals(arg, "--url")
}

/// An argument that is an HTTP address.
pub open spec fn is_http_url(arg: Seq<char>) -> bool {
    "http://"@.is_prefix_of(arg) || "https://"@.is_prefix_of(arg)
}

fn http_url(arg: &[char]) -> (r: bool)
    ensures
        r == is_http_url(arg@),
{
    text::begins_with(arg, "http://") || text::begins_with(arg, "https://")
}

/// Whether the argument at `i` is the value of the option before it.
pub open spec fn is_option_value(args: Seq<Seq<char>>, i: int) -> bool
    decreases i,
{
    i > 0 && !is_option_value(args, i - 1) && takes_value(args[i - 1])
}

/// The address that the argument at `i` gives, if it gives one: by itself, as the value of
/// `--url`, or attached to it.
pub open spec fn url_at(args: Seq<Seq<char>>, i: int) -> Option<Seq<char>> {
    if is_option_value(args, i) {
        if args[i - 1] == "--url"@ && is_http_url(args[i]) {
            Some(args[i])
        } else {
            None
        }
    } else if takes_value(args[i]) {
        None
    } else if "--url="@.is_prefix_of(args[i]) {
        Some(args[i].skip("--url="@.len() as int))
    } else if is_http_url(args[i]) {
        Some(args[i])
    } else {
        None
    }
}

/// The last address that the first `n` arguments give.
pub open spec fn last_url(args: Seq<Seq<char>>, n: int) -> Option<Seq<char>>
    decreases n,
{
    if n <= 0 {
        None
    } else if url_at(args, n - 1) is Some {
        url_at(args, n - 1)
    } else {
        last_url(args, n - 1)
    }
}

/// The address that a list of arguments asks for, if it gives any: the last one.
pub open spec fn requested_url(args: Seq<Seq<char>>) -> Option<Seq<char>> {
    last_url(args, args.len() as int)
}

/// The address that a list of arguments asks for, if it gives any.
pub fn request_url(args: &[String]) -> (r: Option<String>)
    ensures
        r.deep_view() == requested_url(text::texts(args@)),
{
    let mut result: Option<String> = None;
    let mut is_value = false;
    let mut is_url_value = false;
    for i in 0..args.len()
        invariant
            is_value == is_option_value(text::texts(args@), i as int),
            is_url_value == (is_value && text::texts(args@)[i - 1] == "--url"@),
            result.deep_view() == last_url(text::texts(args@), i as int),
    {
        let arg = text::chars_of(args[i].as_str());
        assert(text::texts(args@)[i as int] == arg@);
        if is_value {
            if is_url_value && http_url(arg.as_slice()) {
                result = Some(args[i].clone());
            }
            is_value = false;
            is_url_value = false;
        } else if value_follows(arg.as_slice()) {
            is_value = true;
            is_url_value = text::equals(arg.as_slice(), "--url");
        } else if text::begins_with(arg.as_slice(), "--url=") {
            let prefix = text::chars_of("--url=");
            let url = slice_subrange(arg.as_slice(), prefix.len(), arg.len());
            assert(url@ == arg@.skip("--url="@.len() as int));
            result = Some(text::string_of(url));
        } else if http_url(arg.as_slice()) {
            result = Some(args[i].clone());
        }
    }
    result
}

// ---------------------------------------------------------------------------------------------
// What holds of all arguments

/// Each argument asks for raw output by itself: a list of arguments asks for it exactly if one of
/// the two parts in which it can be cut does, wherever it is cut.
pub proof fn raw_output_stays_explicit(a: Seq<Seq<char>>, b: Seq<Seq<char>>)
    ensures
        explicit_raw_output(a + b) == (explicit_raw_output(a) || explicit_raw_output(b)),
{
    let all = a + b;
    if explicit_raw_output(a) {
        let i = choose|i: int| 0 <= i < a.len() && asks_for_raw_output(#[trigger] a[i]);
        assert(all[i] == a[i]);
    }
    if explicit_raw_output(b) {
        let i = choose|i: int| 0 <= i < b.len() && asks_for_raw_output(#[trigger] b[i]);
        assert(all[a.len() + i] == b[i]);
    }
    if explicit_raw_output(all) {
        let i = choose|i: int| 0 <= i < all.len() && asks_for_raw_output(#[trigger] all[i]);
        if i < a.len() {
            assert(a[i] == all[i]);
        } else {
            assert(b[i - a.len()] == all[i]);
        }
    }
}

proof fn lemma_is_option_value_of_prefix(args: Seq<Seq<char>>, more: Seq<Seq<char>>, i: int)
    requires
        i <= args.len(),
    ensures
        is_option_value(args + more, i) == is_option_value(args, i),
    decreases i,
{
    if i > 0 {
        lemma_is_option_value_of_prefix(args, more, i - 1);
        assert((args + more)[i - 1] == args[i - 1]);
    }
}

proof fn lemma_last_url_of_prefix(args: Seq<Seq<char>>, more: Seq<Seq<char>>, n: int)
    requires
        n <= args.len(),
    ensures
        last_url(args + more, n) == last_url(args, n),
    decreases n,
{
    if n > 0 {
        lemma_last_url_of_prefix(args, more, n - 1);
        lemma_is_option_value_of_prefix(args, more, n - 1);
        assert((args + more)[n - 1] == args[n - 1]);
        if n > 1 {
            assert((args + more)[n - 2] == args[n - 2]);
        }
    }
}

/// Of several addresses the last one counts: an address at the end, where no option before it
/// takes it as its value, is what the arguments ask for.
pub proof fn last_address_counts(args: Seq<Seq<char>>, url: Seq<char>)
    requires
        is_http_url(url),
        !is_option_value(args, args.len() as int),
    ensures
        requested_url(args.push(url)) == Some(url),
{
    let all = args.push(url);
    assert(all == args + seq![url]);
    lemma_is_option_value_of_prefix(args, seq![url], args.len() as int);
    assert(!takes_value(url) && !"--url="@.is_prefix_of(url)) by {
        lemma_addresses_are_no_options(url);
    }
}

/// The value of an option other than `--url`, such as a header or a file name, is never taken for
/// the address, even where it looks like one.
pub proof fn option_values_are_no_addresses(
    args: Seq<Seq<char>>,
    option: Seq<char>,
    value: Seq<char>,
)
    requires
        takes_value(option),
        option != "--url"@,
        !is_option_value(args, args.len() as int),
    ensures
        requested_url(args + seq![option, value]) == requested_url(args),
{
    let more = seq![option, value];
    let n = args.len() as int;
    lemma_is_option_value_of_prefix(args, more, n);
    lemma_last_url_of_prefix(args, more, n);
    assert((args + more)[n] == option);
    assert((args + more)[n + 1] == value);
    assert(url_at(args + more, n + 1) is None);
    assert(url_at(args + more, n) is None);
    assert(last_url(args + more, n + 1) == last_url(args + more, n));
}

proof fn lemma_addresses_are_no_options(url: Seq<char>)
    requires
        is_http_url(url),
    ensures
        !takes_value(url),
        !"--url="@.is_prefix_of(url),
{
    reveal_strlit("http://");
    reveal_strlit("https://");
    reveal_strlit("-H");
    reveal_strlit("--header");
    reveal_strlit("-A");
    reveal_strlit("--user-agent");
    reveal_strlit("-e");
    reveal_strlit("--referer");
    reveal_strlit("-o");
    reveal_strlit("--output");
    reveal_strlit("-D");
    reveal_strlit("--dump-header");
    reveal_strlit("-w");
    reveal_strlit("--write-out");
    reveal_strlit("--url");
    reveal_strlit("--url=");
    assert(url[0] == 'h') by {
        if "http://"@.is_prefix_of(url) {
            assert(url.subrange(0, "http://"@.len() as int)[0] == "http://"@[0]);
        } else {
            assert(url.subrange(0, "https://"@.len() as int)[0] == "https://"@[0]);
        }
    }
    if "--url="@.is_prefix_of(url) {
        assert(url.subrange(0, "--url="@.len() as int)[0] == "--url="@[0]);
    }
}

/// The arguments that ask for raw output by themselves, and no others: those that emit headers, write
/// to a file or append to the output. The value of a short option may be attached to it.
pub proof fn these_ask_for_raw_output(arg: Seq<char>)
    ensures
        explicit_raw_output(seq![arg]) <==> arg == "-i"@ || arg == "-I"@ || arg == "-D"@ || arg == "--include"@ || arg == "--dump-header"@ || arg == "--head"@ || arg == "-O"@ || arg == "-w"@ || arg == "--write-out"@ || arg == "--output"@ || arg == "--remote-name"@ || arg == "--remote-name-all"@ || arg == "--output-dir"@ || "-o"@.is_prefix_of(arg) || "-D"@.is_prefix_of(arg) || "-w"@.is_prefix_of(arg) || "--output="@.is_prefix_of(arg) || "--dump-header="@.is_prefix_of(arg) || "--write-out="@.is_prefix_of(arg),
        !explicit_raw_output(Seq::empty()),
{
    reveal_strlit("-D");
    reveal_strlit("-w");
    assert(seq![arg][0] == arg);
    if arg == "-D"@ {
        assert("-D"@.is_prefix_of(arg));
    }
    if arg == "-w"@ {
        assert("-w"@.is_prefix_of(arg));
    }
}

/// Which arguments take the next one as their value: these options, and nothing else. What follows
/// the value begins anew.
pub proof fn values_follow_their_options(
    args: Seq<Seq<char>>,
    option: Seq<char>,
    value: Seq<char>,
    arg: Seq<char>,
)
    requires
        !is_option_value(args, args.len() as int),
        option == "-H"@ || option == "--header"@ || option == "-A"@ || option == "--user-agent"@ || option == "-e"@ || option == "--referer"@ || option == "-o"@ || option == "--output"@ || option == "-D"@ || option == "--dump-header"@ || option == "-w"@ || option == "--write-out"@ || option == "--url"@,
        arg != "-H"@ && arg != "--header"@ && arg != "-A"@ && arg != "--user-agent"@ && arg != "-e"@ && arg != "--referer"@ && arg != "-o"@ && arg != "--output"@ && arg != "-D"@ && arg != "--dump-header"@ && arg != "-w"@ && arg != "--write-out"@ && arg != "--url"@,
    ensures
        is_option_value(args.push(option), args.len() as int + 1),
        !is_option_value(args + seq![option, value], args.len() as int + 2),
        !is_option_value(args.push(arg), args.len() as int + 1),
        !is_option_value(Seq::empty(), 0),
{
    let n = args.len() as int;
    lemma_is_option_value_of_prefix(args, seq![option], n);
    lemma_is_option_value_of_prefix(args, seq![arg], n);
    lemma_is_option_value_of_prefix(args, seq![option, value], n);
    assert(args.push(option) == args + seq![option]);
    assert(args.push(arg) == args + seq![arg]);
    assert((args + seq![option, value])[n] == option);
    assert(is_option_value(args + seq![option, value], n + 1));
}

/// How an argument changes the address that is asked for, behind arguments of which none waits for
/// a value. An address replaces it, by itself, behind `--url`, or attached to it; the value of
/// another option does not, even where it looks like an address; and neither does anything else.
pub proof fn addresses_are_read(
    args: Seq<Seq<char>>,
    option: Seq<char>,
    value: Seq<char>,
    arg: Seq<char>,
)
    requires
        !is_option_value(args, args.len() as int),
        option == "-H"@ || option == "--header"@ || option == "-A"@ || option == "--user-agent"@ || option == "-e"@ || option == "--referer"@ || option == "-o"@ || option == "--output"@ || option == "-D"@ || option == "--dump-header"@ || option == "-w"@ || option == "--write-out"@,
        arg != "-H"@ && arg != "--header"@ && arg != "-A"@ && arg != "--user-agent"@ && arg != "-e"@ && arg != "--referer"@ && arg != "-o"@ && arg != "--output"@ && arg != "-D"@ && arg != "--dump-header"@ && arg != "-w"@ && arg != "--write-out"@ && arg != "--url"@,
        !"--url="@.is_prefix_of(arg),
    ensures
        requested_url(Seq::empty()) is None,
        requested_url(args.push(option)) == requested_url(args),
        requested_url(args.push("--url"@)) == requested_url(args),
        requested_url(args + seq![option, value]) == requested_url(args),
        requested_url(args + seq!["--url"@, value]) == (if "http://"@.is_prefix_of(value)
            || "https://"@.is_prefix_of(value) {
            Some(value)
        } else {
            requested_url(args)
        }),
        requested_url(args.push("--url="@ + value)) == Some(value),
        requested_url(args.push(arg)) == (if "http://"@.is_prefix_of(arg)
            || "https://"@.is_prefix_of(arg) {
            Some(arg)
        } else {
            requested_url(args)
        }),
{
    let n = args.len() as int;
    lemma_url_behind(args, option, value);
    lemma_url_behind(args, "--url"@, value);
    let attached = "--url="@ + value;
    lemma_attached(value);
    lemma_is_option_value_of_prefix(args, seq![attached], n);
    lemma_last_url_of_prefix(args, seq![attached], n);
    assert(args.push(attached) == args + seq![attached]);
    assert(attached.skip("--url="@.len() as int) == value);
    lemma_is_option_value_of_prefix(args, seq![arg], n);
    lemma_last_url_of_prefix(args, seq![arg], n);
    assert(args.push(arg) == args + seq![arg]);
    assert(option != "--url"@) by {
        reveal_strlit("-H");
        reveal_strlit("--header");
        reveal_strlit("-A");
        reveal_strlit("--user-agent");
        reveal_strlit("-e");
        reveal_strlit("--referer");
        reveal_strlit("-o");
        reveal_strlit("--output");
        reveal_strlit("-D");
        reveal_strlit("--dump-header");
        reveal_strlit("-w");
        reveal_strlit("--write-out");
        reveal_strlit("--url");
        assert("--url"@.len() == 5);
        assert("-H"@.len() == 2);
        assert("--header"@.len() == 8);
        assert("-A"@.len() == 2);
        assert("--user-agent"@.len() == 12);
        assert("-e"@.len() == 2);
        assert("--referer"@.len() == 9);
        assert("-o"@.len() == 2);
        assert("--output"@.len() == 8);
        assert("-D"@.len() == 2);
        assert("--dump-header"@.len() == 13);
        assert("-w"@.len() == 2);
        assert("--write-out"@.len() == 11);
    }
}

proof fn lemma_url_behind(args: Seq<Seq<char>>, option: Seq<char>, value: Seq<char>)
    requires
        !is_option_value(args, args.len() as int),
        takes_value(option),
    ensures
        requested_url(args.push(option)) == requested_url(args),
        requested_url(args + seq![option, value]) == (if option == "--url"@ && is_http_url(value) {
            Some(value)
        } else {
            requested_url(args)
        }),
{
    let n = args.len() as int;
    let one = seq![option];
    let two = seq![option, value];
    lemma_is_option_value_of_prefix(args, one, n);
    lemma_last_url_of_prefix(args, one, n);
    assert(args.push(option) == args + one);
    lemma_is_option_value_of_prefix(args, two, n);
    lemma_last_url_of_prefix(args, two, n);
    let all = args + two;
    assert(all[n] == option);
    assert(all[n + 1] == value);
    assert(is_option_value(all, n + 1));
    assert(url_at(all, n) is None);
    assert(last_url(all, n + 1) == last_url(all, n));
}

proof fn lemma_attached(value: Seq<char>)
    ensures
        "--url="@.is_prefix_of("--url="@ + value),
        !takes_value("--url="@ + value),
{
    let arg = "--url="@ + value;
    reveal_strlit("-H");
    reveal_strlit("--header");
    reveal_strlit("-A");
    reveal_strlit("--user-agent");
    reveal_strlit("-e");
    reveal_strlit("--referer");
    reveal_strlit("-o");
    reveal_strlit("--output");
    reveal_strlit("-D");
    reveal_strlit("--dump-header");
    reveal_strlit("-w");
    reveal_strlit("--write-out");
    reveal_strlit("--url");
    reveal_strlit("--url=");
    assert(arg.subrange(0, "--url="@.len() as int) == "--url="@);
    assert(arg[2] == 'u' && arg[3] == 'r' && arg.len() >= 6);
}

} // verus!
