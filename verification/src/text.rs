//! Member names: their order, and the trusted edge to the case converter.

use heck::MixedCase;
use vstd::prelude::*;
use vstd::utf8::{
    encode_utf8, encode_utf8_decode_utf8, is_ascii_chars, is_ascii_chars_encode_utf8,
};

verus! {

/// `String::push` of the standard library appends one character.
pub assume_specification[ std::string::String::push ](s: &mut std::string::String, ch: char)
    ensures
        final(s)@ == old(s)@.push(ch),
;

/// How one member name stands to another in the order of their UTF-8 bytes.
#[derive(Clone, Copy, Debug, PartialEq, Eq, Structural)]
pub enum KeyOrder {
    Before,
    Same,
    After,
}

/// `a` comes before `b` when the two are compared byte by byte: at the first
/// place where they differ `a` has the smaller byte, or `a` ends there and
/// `b` goes on.
pub open spec fn bytes_before(a: Seq<u8>, b: Seq<u8>) -> bool {
    exists|k: int|
        0 <= k <= a.len() && k < b.len() && #[trigger] a.subrange(0, k) == b.subrange(0, k) && (k
            < a.len() ==> a[k] < b[k])
}

/// The order of member names: that of their UTF-8 encodings, which is the
/// order of `str`.
pub open spec fn key_before(a: Seq<char>, b: Seq<char>) -> bool {
    bytes_before(encode_utf8(a), encode_utf8(b))
}

/// Compares two names in the order of their UTF-8 bytes.
pub fn compare_keys(a: &str, b: &str) -> (r: KeyOrder)
    ensures
        r == KeyOrder::Before <==> key_before(a@, b@),
        r == KeyOrder::Same <==> a@ == b@,
        r == KeyOrder::After <==> key_before(b@, a@),
{
    let x = a.as_bytes();
    let y = b.as_bytes();
    let mut i: usize = 0;
    while i < x.len() && i < y.len() && x[i] == y[i]
        invariant
            i <= x.len(),
            i <= y.len(),
            x@.subrange(0, i as int) == y@.subrange(0, i as int),
        decreases x.len() - i,
    {
        assert(x@.subrange(0, i + 1) == x@.subrange(0, i as int).push(x@[i as int]));
        assert(y@.subrange(0, i + 1) == y@.subrange(0, i as int).push(y@[i as int]));
        i += 1;
    }
    proof {
        lemma_no_two_ways(x@, y@);
        lemma_no_two_ways(y@, x@);
        encode_utf8_decode_utf8(a@);
        encode_utf8_decode_utf8(b@);
    }
    if i == x.len() && i == y.len() {
        assert(x@ == x@.subrange(0, i as int));
        assert(y@ == y@.subrange(0, i as int));
        KeyOrder::Same
    } else if i == x.len() {
        KeyOrder::Before
    } else if i == y.len() {
        KeyOrder::After
    } else if x[i] < y[i] {
        KeyOrder::Before
    } else {
        KeyOrder::After
    }
}

/// Of two byte strings at most one comes before the other, and none comes
/// before itself.
pub proof fn lemma_no_two_ways(a: Seq<u8>, b: Seq<u8>)
    ensures
        !(bytes_before(a, b) && bytes_before(b, a)),
        a == b ==> !bytes_before(a, b),
{
    if bytes_before(a, b) && bytes_before(b, a) {
        let k = choose|k: int|
            0 <= k <= a.len() && k < b.len() && #[trigger] a.subrange(0, k) == b.subrange(0, k) && (
            k < a.len() ==> a[k] < b[k]);
        let m = choose|m: int|
            0 <= m <= b.len() && m < a.len() && #[trigger] b.subrange(0, m) == a.subrange(0, m) && (
            m < b.len() ==> b[m] < a[m]);
        if k < m {
            assert(b.subrange(0, m)[k] == a.subrange(0, m)[k]);
        } else if m < k {
            assert(a.subrange(0, k)[m] == b.subrange(0, k)[m]);
        }
    }
    if a == b && bytes_before(a, b) {
        let k = choose|k: int|
            0 <= k <= a.len() && k < b.len() && #[trigger] a.subrange(0, k) == b.subrange(0, k) && (
            k < a.len() ==> a[k] < b[k]);
    }
}

/// Names of ASCII characters are ordered as their characters are: `a` comes
/// before `b` where, after `k` characters that they share, `a` ends or has
/// the smaller character.
pub proof fn lemma_ascii_before(a: Seq<char>, b: Seq<char>, k: int)
    requires
        is_ascii_chars(a),
        is_ascii_chars(b),
        0 <= k <= a.len(),
        k < b.len(),
        a.subrange(0, k) == b.subrange(0, k),
        k < a.len() ==> (a[k] as u8) < (b[k] as u8),
    ensures
        key_before(a, b),
{
    is_ascii_chars_encode_utf8(a);
    is_ascii_chars_encode_utf8(b);
    let x = encode_utf8(a);
    let y = encode_utf8(b);
    assert(x.subrange(0, k) =~= y.subrange(0, k)) by {
        assert forall|i: int| 0 <= i < k implies x[i] == y[i] by {
            assert(a.subrange(0, k)[i] == a[i]);
            assert(b.subrange(0, k)[i] == b[i]);
            assert(a[i] as u8 == x[i]);
            assert(b[i] as u8 == y[i]);
        }
    }
    if k < a.len() {
        assert(a[k] as u8 == x[k]);
        assert(b[k] as u8 == y[k]);
    }
}

/// The name with every `.` turned into a space.
pub open spec fn dots_to_spaces(key: Seq<char>) -> Seq<char> {
    key.map_values(|c: char| if c == '.' { ' ' } else { c })
}

/// What `heck` makes of a text in mixed case: the words run together, the
/// first in lower case, each later one capitalized.
pub uninterp spec fn mixed_case(text: Seq<char>) -> Seq<char>;

/// The name under which a field is handed on: dots give way to spaces, and
/// the words are then joined in mixed case.
pub open spec fn sanitized_key(key: Seq<char>) -> Seq<char> {
    mixed_case(dots_to_spaces(key))
}

/// Calls `heck::MixedCase::to_mixed_case` on `text`. The result is a
/// function of the text alone; it is known here only by its name,
/// [`mixed_case`].
#[verifier::external_body]
fn to_mixed_case(text: &str) -> (r: String)
    ensures
        r@ == mixed_case(text@),
{
    text.to_mixed_case()
}

/// Turns every `.` of `key` into a space.
pub fn replace_dots(key: &str) -> (r: String)
    ensures
        r@ == dots_to_spaces(key@),
{
    let mut out = String::new();
    for c in it: key.chars()
        invariant
            it.seq() == key@,
            out@ == dots_to_spaces(key@.take(it.index() as int)),
    {
        proof {
            let done = key@.take(it.index() as int);
            assert(key@.take(it.index() + 1) == done.push(c));
            assert(dots_to_spaces(done.push(c)) == dots_to_spaces(done).push(
                if c == '.' {
                    ' '
                } else {
                    c
                },
            ));
        }
        if c == '.' {
            out.push(' ');
        } else {
            out.push(c);
        }
    }
    assert(key@.take(key@.len() as int) == key@);
    out
}

/// Gives a field name its sanitized form.
pub fn sanitize_key(key: &str) -> (r: String)
    ensures
        r@ == sanitized_key(key@),
{
    let spaced = replace_dots(key);
    to_mixed_case(spaced.as_str())
}

} // verus!
