//! Bytes as Base64 text.

use base64::Engine;
use vstd::prelude::*;

verus! {

/// The character of the standard Base64 alphabet for six bits.
pub open spec fn symbol(bits: int) -> char {
    if bits < 26 {
        ((65 + bits) as u32) as char
    } else if bits < 52 {
        ((97 + bits - 26) as u32) as char
    } else if bits < 62 {
        ((48 + bits - 52) as u32) as char
    } else if bits == 62 {
        '+'
    } else {
        '/'
    }
}

/// The byte at a position, or zero behind the end.
pub open spec fn byte_at(data: Seq<u8>, i: int) -> int {
    if i < data.len() {
        data[i] as int
    } else {
        0
    }
}

/// Three bytes in a row as one number.
pub open spec fn three_bytes(data: Seq<u8>, group: int) -> int {
    byte_at(data, 3 * group) * 65536 + byte_at(data, 3 * group + 1) * 256 + byte_at(
        data,
        3 * group + 2,
    )
}

/// The six bits for one of the four characters that stand for three bytes.
pub open spec fn six_bits(three: int, place: int) -> int {
    if place == 0 {
        three / 262144
    } else if place == 1 {
        three / 4096 % 64
    } else if place == 2 {
        three / 64 % 64
    } else {
        three % 64
    }
}

/// How many characters other than padding stand for `n` bytes.
pub open spec fn symbol_count(n: int) -> int {
    (4 * n + 2) / 3
}

/// How many characters stand for `n` bytes.
pub open spec fn text_len(n: int) -> int {
    4 * ((n + 2) / 3)
}

/// Bytes in standard Base64, padded with `=` to a multiple of four characters.
pub open spec fn base64_text(data: Seq<u8>) -> Seq<char> {
    Seq::new(
        text_len(data.len() as int) as nat,
        |i: int|
            if i < symbol_count(data.len() as int) {
                symbol(six_bits(three_bytes(data, i / 4), i % 4))
            } else {
                '='
            },
    )
}

/// `base64::engine::general_purpose::STANDARD.encode`: the bytes in standard Base64 with padding.
/// The text has to fit in memory, or the call panics.
#[verifier::external_body]
pub(crate) fn base64_encode(data: &[u8]) -> (r: String)
    requires
        text_len(data@.len() as int) <= isize::MAX,
    ensures
        r@ == base64_text(data@),
{
    base64::engine::general_purpose::STANDARD.encode(data)
}

proof fn lemma_symbol(a: int, b: int)
    requires
        0 <= a < 64,
        0 <= b < 64,
    ensures
        symbol(a) != '=',
        symbol(a) == symbol(b) ==> a == b,
{
}

proof fn lemma_six_bits(three: int)
    requires
        0 <= three < 16777216,
    ensures
        0 <= six_bits(three, 0) < 64,
        0 <= six_bits(three, 1) < 64,
        0 <= six_bits(three, 2) < 64,
        0 <= six_bits(three, 3) < 64,
        three == six_bits(three, 0) * 262144 + six_bits(three, 1) * 4096 + six_bits(three, 2) * 64
            + six_bits(three, 3),
{
}

proof fn lemma_same_group(a: Seq<u8>, b: Seq<u8>, group: int)
    requires
        a.len() == b.len(),
        base64_text(a) == base64_text(b),
        0 <= group,
        3 * group < a.len(),
    ensures
        three_bytes(a, group) == three_bytes(b, group),
{
    let x = three_bytes(a, group);
    let y = three_bytes(b, group);
    lemma_six_bits(x);
    lemma_six_bits(y);
    assert forall|place: int| 0 <= place < 4 implies six_bits(x, place) == six_bits(y, place) by {
        let i = 4 * group + place;
        assert(i / 4 == group && i % 4 == place);
        if i < symbol_count(a.len() as int) {
            assert(base64_text(a)[i] == symbol(six_bits(x, place)));
            assert(base64_text(b)[i] == symbol(six_bits(y, place)));
            lemma_symbol(six_bits(x, place), six_bits(y, place));
        } else if a.len() == 3 * group + 1 {
            assert(place >= 2);
            assert(x == byte_at(a, 3 * group) * 65536);
            assert(y == byte_at(b, 3 * group) * 65536);
        } else {
            assert(a.len() == 3 * group + 2);
            assert(place == 3);
        }
    }
    assert(six_bits(x, 0) == six_bits(y, 0));
    assert(six_bits(x, 1) == six_bits(y, 1));
    assert(six_bits(x, 2) == six_bits(y, 2));
    assert(six_bits(x, 3) == six_bits(y, 3));
}

/// No two sequences of bytes have the same Base64 text: the text keeps every byte.
pub proof fn base64_text_keeps_every_byte(a: Seq<u8>, b: Seq<u8>)
    requires
        base64_text(a) == base64_text(b),
    ensures
        a == b,
{
    assert(base64_text(a).len() == text_len(a.len() as int));
    assert(base64_text(b).len() == text_len(b.len() as int));
    if a.len() < b.len() {
        lemma_padding_differs(a, b);
    } else if b.len() < a.len() {
        lemma_padding_differs(b, a);
    }
    assert forall|i: int| 0 <= i < a.len() implies a[i] == b[i] by {
        let group = i / 3;
        lemma_same_group(a, b, group);
        assert(i == 3 * group + i % 3);
    }
    assert(a =~= b);
}

proof fn lemma_padding_differs(a: Seq<u8>, b: Seq<u8>)
    requires
        a.len() < b.len(),
        text_len(a.len() as int) == text_len(b.len() as int),
    ensures
        base64_text(a) != base64_text(b),
{
    let i = symbol_count(a.len() as int);
    assert(i < symbol_count(b.len() as int) <= text_len(b.len() as int));
    let three = three_bytes(b, i / 4);
    lemma_six_bits(three);
    assert(0 <= i % 4 < 4);
    lemma_symbol(six_bits(three, i % 4), 0);
    assert(base64_text(a)[i] == '=');
    assert(base64_text(b)[i] == symbol(six_bits(three, i % 4)));
}

proof fn lemma_bits_of_bytes(x: int, y: int, z: int)
    requires
        0 <= x < 256,
        0 <= y < 256,
        0 <= z < 256,
    ensures
        six_bits(x * 65536 + y * 256 + z, 0) == x / 4,
        six_bits(x * 65536 + y * 256 + z, 1) == x % 4 * 16 + y / 16,
        six_bits(x * 65536 + y * 256 + z, 2) == y % 16 * 4 + z / 64,
        six_bits(x * 65536 + y * 256 + z, 3) == z % 64,
{
    let n = x * 65536 + y * 256 + z;
    assert(n / 262144 == x / 4);
    assert(n / 4096 == x * 16 + y / 16);
    assert((x * 16 + y / 16) % 64 == x % 4 * 16 + y / 16);
    assert(n / 64 == x * 1024 + y * 4 + z / 64);
    assert((x * 1024 + y * 4 + z / 64) % 64 == y % 16 * 4 + z / 64);
    assert(n % 64 == z % 64);
}

/// The 64 characters: capital letters, small letters, digits, `+` and `/`.
pub proof fn the_alphabet_is_standard(k: int)
    requires
        0 <= k < 64,
    ensures
        k < 26 ==> symbol(k) as int == 'A' as int + k,
        26 <= k < 52 ==> symbol(k) as int == 'a' as int + (k - 26),
        52 <= k < 62 ==> symbol(k) as int == '0' as int + (k - 52),
        k == 62 ==> symbol(k) == '+',
        k == 63 ==> symbol(k) == '/',
{
}

/// Three bytes become four characters, six bits for each; one or two bytes at the end are padded
/// with `=`.
pub proof fn three_bytes_become_four_characters(x: u8, y: u8, z: u8)
    ensures
        base64_text(Seq::empty()) == Seq::<char>::empty(),
        base64_text(seq![x, y, z]) == seq![
            symbol(x as int / 4),
            symbol(x as int % 4 * 16 + y as int / 16),
            symbol(y as int % 16 * 4 + z as int / 64),
            symbol(z as int % 64),
        ],
        base64_text(seq![x, y]) == seq![
            symbol(x as int / 4),
            symbol(x as int % 4 * 16 + y as int / 16),
            symbol(y as int % 16 * 4),
            '=',
        ],
        base64_text(seq![x]) == seq![
            symbol(x as int / 4),
            symbol(x as int % 4 * 16),
            '=',
            '=',
        ],
{
    lemma_bits_of_bytes(x as int, y as int, z as int);
    lemma_bits_of_bytes(x as int, y as int, 0);
    lemma_bits_of_bytes(x as int, 0, 0);
    let three = seq![x, y, z];
    let two = seq![x, y];
    let one = seq![x];
    assert(three_bytes(three, 0) == x as int * 65536 + y as int * 256 + z as int);
    assert(three_bytes(two, 0) == x as int * 65536 + y as int * 256 + 0);
    assert(three_bytes(one, 0) == x as int * 65536 + 0 * 256 + 0);
    assert(0int / 4 == 0 && 1int / 4 == 0 && 2int / 4 == 0 && 3int / 4 == 0);
    assert(0int % 4 == 0 && 1int % 4 == 1 && 2int % 4 == 2 && 3int % 4 == 3);
    assert(base64_text(three).len() == 4);
    assert(base64_text(two).len() == 4);
    assert(base64_text(one).len() == 4);
    assert(symbol_count(3) == 4 && symbol_count(2) == 3 && symbol_count(1) == 2);
}

proof fn lemma_byte_behind(a: Seq<u8>, b: Seq<u8>, m: int, k: int)
    requires
        a.len() == 3 * m,
        0 <= k,
    ensures
        byte_at(a + b, 3 * m + k) == byte_at(b, k),
{
    if k < b.len() {
        assert((a + b)[3 * m + k] == b[k]);
    }
}

/// Groups of three bytes are written one by one.
pub proof fn groups_are_written_one_by_one(a: Seq<u8>, b: Seq<u8>)
    requires
        a.len() % 3 == 0,
    ensures
        base64_text(a + b) == base64_text(a) + base64_text(b),
{
    let all = a + b;
    let m = a.len() as int / 3;
    assert(a.len() == 3 * m);
    assert(text_len(all.len() as int) == 4 * m + text_len(b.len() as int));
    assert(text_len(a.len() as int) == 4 * m);
    assert(symbol_count(a.len() as int) == 4 * m);
    assert(symbol_count(all.len() as int) == 4 * m + symbol_count(b.len() as int));
    let whole = base64_text(all);
    let parts = base64_text(a) + base64_text(b);
    assert(whole.len() == parts.len());
    assert forall|i: int| 0 <= i < whole.len() implies whole[i] == parts[i] by {
        if i < 4 * m {
            let g = i / 4;
            assert(0 <= g < m);
            assert(parts[i] == base64_text(a)[i]);
            assert(all[3 * g] == a[3 * g]);
            assert(all[3 * g + 1] == a[3 * g + 1]);
            assert(all[3 * g + 2] == a[3 * g + 2]);
            assert(three_bytes(all, g) == three_bytes(a, g));
        } else {
            let j = i - 4 * m;
            let g = j / 4;
            assert(parts[i] == base64_text(b)[j]);
            assert(i / 4 == m + g && i % 4 == j % 4);
            lemma_byte_behind(a, b, m, 3 * g);
            lemma_byte_behind(a, b, m, 3 * g + 1);
            lemma_byte_behind(a, b, m, 3 * g + 2);
            assert(3 * (m + g) == 3 * m + 3 * g);
            assert(three_bytes(all, m + g) == three_bytes(b, g));
        }
    }
    assert(whole =~= parts);
}

} // verus!
