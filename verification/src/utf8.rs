//! The UTF-8 form of texts: character boundaries and the longest prefix that fits a budget.

use crate::text;
use vstd::prelude::*;
use vstd::utf8::*;

verus! {

broadcast use vstd::seq::group_seq_axioms;

/// The encoding of two texts, one after the other, is their encodings one after the other.
pub proof fn lemma_encode_concat(a: Seq<char>, b: Seq<char>)
    ensures
        encode_utf8(a + b) == encode_utf8(a) + encode_utf8(b),
    decreases a.len(),
{
    if a.len() == 0 {
        assert(a + b == b);
    } else {
        lemma_encode_concat(a.drop_first(), b);
        assert((a + b).drop_first() == a.drop_first() + b);
        assert(encode_utf8(a + b) == encode_utf8(a) + encode_utf8(b));
    }
}

/// A longer prefix of a text has a longer encoding.
pub proof fn lemma_encode_prefix_grows(s: Seq<char>, m: int, n: int)
    requires
        0 <= m < n <= s.len(),
    ensures
        encode_utf8(s.take(m)).len() < encode_utf8(s.take(n)).len(),
{
    let middle = s.subrange(m, n);
    assert(s.take(n) == s.take(m) + middle);
    lemma_encode_concat(s.take(m), middle);
    assert(encode_utf8(middle).len() > 0) by {
        assert(encode_scalar(middle[0] as u32).len() > 0);
    }
}

/// The encoding of a prefix of a text ends at a character boundary of the whole.
pub proof fn lemma_prefix_ends_at_boundary(s: Seq<char>, n: int)
    requires
        0 <= n <= s.len(),
    ensures
        is_char_boundary(encode_utf8(s), encode_utf8(s.take(n)).len() as int),
    decreases n,
{
    encode_utf8_valid_utf8(s);
    if n == 0 {
        assert(s.take(0) == Seq::<char>::empty());
    } else {
        let rest = s.drop_first();
        lemma_prefix_ends_at_boundary(rest, n - 1);
        encode_utf8_first_scalar(s);
        assert(pop_first_scalar(encode_utf8(s)) == encode_utf8(rest));
        assert(s.take(n).drop_first() == rest.take(n - 1));
        assert(encode_utf8(s.take(n)).len() == encode_scalar(s[0] as u32).len() + encode_utf8(
            rest.take(n - 1),
        ).len());
        assert(s == s.take(n) + s.skip(n));
        lemma_encode_concat(s.take(n), s.skip(n));
    }
}

/// The longest beginning of a text whose encoding takes at most `budget` bytes.
pub open spec fn fitting_prefix(s: Seq<char>, budget: nat) -> Seq<char>
    decreases s.len(),
{
    if encode_utf8(s).len() <= budget {
        s
    } else {
        fitting_prefix(s.drop_last(), budget)
    }
}

pub proof fn lemma_fitting_prefix(s: Seq<char>, budget: nat)
    ensures
        encode_utf8(fitting_prefix(s, budget)).len() <= budget,
        fitting_prefix(s, budget).is_prefix_of(s),
    decreases s.len(),
{
    if encode_utf8(s).len() > budget {
        lemma_fitting_prefix(s.drop_last(), budget);
    }
}

/// One more character than the longest beginning that fits does not fit.
pub proof fn lemma_fitting_prefix_is_longest(s: Seq<char>, budget: nat)
    ensures
        ({
            let n = fitting_prefix(s, budget).len() as int;
            &&& fitting_prefix(s, budget) == s.take(n)
            &&& n < s.len() ==> encode_utf8(s.take(n + 1)).len() > budget
        }),
    decreases s.len(),
{
    let n = fitting_prefix(s, budget).len() as int;
    if encode_utf8(s).len() > budget {
        let front = s.drop_last();
        lemma_fitting_prefix(front, budget);
        lemma_fitting_prefix_is_longest(front, budget);
        assert(front.take(n) == s.take(n));
        if n < front.len() {
            assert(front.take(n + 1) == s.take(n + 1));
        } else {
            assert(s.take(n + 1) == s);
        }
    } else {
        assert(s.take(n) == s);
    }
}

proof fn lemma_fitting_prefix_unique(s: Seq<char>, n: int, budget: nat)
    requires
        0 <= n <= s.len(),
        encode_utf8(s.take(n)).len() <= budget,
        n < s.len() ==> encode_utf8(s.take(n + 1)).len() > budget,
    ensures
        fitting_prefix(s, budget) == s.take(n),
    decreases s.len(),
{
    if n == s.len() {
        assert(s.take(n) == s);
    } else {
        assert(s.take(s.len() as int) == s);
        if n + 1 < s.len() {
            lemma_encode_prefix_grows(s, n + 1, s.len() as int);
            assert(s.drop_last().take(n + 1) == s.take(n + 1));
        }
        assert(s.drop_last().take(n) == s.take(n));
        lemma_fitting_prefix_unique(s.drop_last(), n, budget);
    }
}

/// Removing white space from the end does not make an encoding longer.
pub proof fn lemma_trim_end_shrinks(s: Seq<char>)
    ensures
        encode_utf8(text::trim_end(s)).len() <= encode_utf8(s).len(),
    decreases s.len(),
{
    if s.len() > 0 && text::is_whitespace(s.last()) {
        lemma_trim_end_shrinks(s.drop_last());
        assert(s == s.drop_last() + seq![s.last()]);
        lemma_encode_concat(s.drop_last(), seq![s.last()]);
    }
}

/// Why a sequence of bytes is not UTF-8.
#[verifier::external_type_specification]
#[verifier::external_body]
pub struct ExUtf8Error(core::str::Utf8Error);

/// `core::str::from_utf8` succeeds on UTF-8, and only on it, and gives the text that it encodes.
pub assume_specification[ core::str::from_utf8 ](v: &[u8]) -> (r: Result<
    &str,
    core::str::Utf8Error,
>)
    ensures
        r is Ok <==> valid_utf8(v@),
        r matches Ok(s) ==> s@ == decode_utf8(v@),
;

/// What `String::from_utf8_lossy` makes of a sequence of bytes.
pub uninterp spec fn lossy(bytes: Seq<u8>) -> Seq<char>;

/// `String::from_utf8_lossy`: the text that UTF-8 encodes. Bytes that are not UTF-8 are read too,
/// with U+FFFD in the place of what is wrong with them; which bytes one such character stands for
/// is left to `lossy`.
#[verifier::external_body]
pub(crate) fn lossy_text(bytes: &[u8]) -> (r: String)
    ensures
        r@ == lossy(bytes@),
        valid_utf8(bytes@) ==> r@ == decode_utf8(bytes@),
        !valid_utf8(bytes@) ==> r@.contains('\u{fffd}'),
{
    String::from_utf8_lossy(bytes).into_owned()
}

/// How many bytes the encoding of a string takes.
pub fn byte_len(s: &str) -> (n: usize)
    ensures
        n == encode_utf8(s@).len(),
{
    s.as_bytes().len()
}

/// The greatest character boundary of `text` that is not greater than `requested`.
pub fn floor_char_boundary(text: &str, requested: usize) -> (end: usize)
    ensures
        end <= requested,
        is_char_boundary(encode_utf8(text@), end as int),
        forall|i: int| end < i <= requested ==> !is_char_boundary(encode_utf8(text@), i),
{
    let len: usize = byte_len(text);
    let mut end: usize = if requested < len {
        requested
    } else {
        len
    };
    proof {
        encode_utf8_valid_utf8(text@);
    }
    while end > 0 && !text.is_char_boundary(end)
        invariant
            end <= requested,
            forall|i: int| end < i <= requested ==> !is_char_boundary(encode_utf8(text@), i),
        decreases end,
    {
        end = end - 1;
    }
    proof {
        is_char_boundary_start_end_of_seq(encode_utf8(text@));
    }
    end
}

/// The longest beginning of a text whose encoding takes at most `budget` bytes.
pub fn prefix_within(text: &str, budget: usize) -> (r: &str)
    ensures
        r@ == fitting_prefix(text@, budget as nat),
{
    let end: usize = floor_char_boundary(text, budget);
    let (kept, _rest) = text.split_at(end);
    proof {
        let bytes = encode_utf8(text@);
        encode_utf8_valid_utf8(text@);
        valid_utf8_split(bytes, end as int);
        decode_utf8_split(bytes, end as int);
        encode_utf8_decode_utf8(text@);
        encode_utf8_decode_utf8(kept@);
        let n = kept@.len() as int;
        assert(text@ == kept@ + decode_utf8(bytes.subrange(end as int, bytes.len() as int)));
        assert(text@.take(n) == kept@);
        if n < text@.len() {
            lemma_encode_prefix_grows(text@, n, n + 1);
            lemma_prefix_ends_at_boundary(text@, n + 1);
        }
        lemma_fitting_prefix_unique(text@, n, budget as nat);
    }
    kept
}

} // verus!
