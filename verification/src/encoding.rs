//! Facts that tie positions in a sequence of characters to positions in its
//! UTF-8 encoding. The tokenizer counts bytes while its contract speaks of
//! characters; these lemmas carry a proof from one to the other.

use vstd::prelude::*;
use vstd::string::StringSliceAdditionalSpecFns;
use vstd::utf8::*;

verus! {

/// Number of bytes that `chars` takes when encoded as UTF-8.
pub open spec fn utf8_len(chars: Seq<char>) -> nat {
    encode_utf8(chars).len()
}

/// Number of bytes that one character takes when encoded as UTF-8.
pub open spec fn utf8_width(c: char) -> nat {
    encode_scalar(c as u32).len()
}

/// The number of bytes of a string. That it is a `usize` shows that no count
/// of bytes within the string overflows.
pub fn encoded_len(s: &str) -> (n: usize)
    ensures
        n == utf8_len(s@),
{
    s.as_bytes().len()
}

/// Every character is encoded on one to four bytes.
pub proof fn lemma_width_bounds(c: char)
    ensures
        1 <= utf8_width(c) <= 4,
{
}

/// The encoding of a concatenation is the concatenation of the encodings.
pub proof fn lemma_encode_concat(a: Seq<char>, b: Seq<char>)
    ensures
        encode_utf8(a + b) == encode_utf8(a) + encode_utf8(b),
        utf8_len(a + b) == utf8_len(a) + utf8_len(b),
    decreases a.len(),
{
    if a.len() == 0 {
        assert(a + b =~= b);
        assert(encode_utf8(a) + encode_utf8(b) =~= encode_utf8(b));
    } else {
        lemma_encode_concat(a.drop_first(), b);
        assert((a + b).drop_first() =~= a.drop_first() + b);
        assert(encode_utf8(a + b) =~= encode_utf8(a) + encode_utf8(b));
    }
}

/// A single character is encoded as its scalar value.
pub proof fn lemma_encode_single(c: char)
    ensures
        encode_utf8(seq![c]) == encode_scalar(c as u32),
{
    reveal_with_fuel(encode_utf8, 2);
    assert(seq![c].drop_first() =~= Seq::<char>::empty());
    assert(encode_utf8(seq![c]) =~= encode_scalar(c as u32));
}

/// Appending one character appends its encoding.
pub proof fn lemma_encode_push(a: Seq<char>, c: char)
    ensures
        encode_utf8(a.push(c)) == encode_utf8(a) + encode_scalar(c as u32),
        utf8_len(a.push(c)) == utf8_len(a) + utf8_width(c),
{
    lemma_encode_single(c);
    assert(a.push(c) =~= a + seq![c]);
    lemma_encode_concat(a, seq![c]);
}

/// A longer prefix never takes fewer bytes than a shorter one, and no prefix
/// takes more bytes than the whole.
pub proof fn lemma_prefix_len_monotonic(t: Seq<char>, a: int, b: int)
    requires
        0 <= a <= b <= t.len(),
    ensures
        utf8_len(t.take(a)) + utf8_len(t.subrange(a, b)) == utf8_len(t.take(b)),
        utf8_len(t.take(b)) <= utf8_len(t),
{
    assert(t.take(b) =~= t.take(a) + t.subrange(a, b));
    lemma_encode_concat(t.take(a), t.subrange(a, b));
    assert(t =~= t.take(b) + t.skip(b));
    lemma_encode_concat(t.take(b), t.skip(b));
}

/// The byte offset at which any prefix ends falls on a character boundary of
/// the encoded text.
pub proof fn lemma_prefix_is_boundary(t: Seq<char>, k: int)
    requires
        0 <= k <= t.len(),
    ensures
        is_char_boundary(encode_utf8(t), utf8_len(t.take(k)) as int),
    decreases k,
{
    let bytes = encode_utf8(t);
    encode_utf8_valid_utf8(t);
    if k == 0 {
        assert(t.take(0) =~= Seq::<char>::empty());
    } else {
        let rest = t.drop_first();
        encode_utf8_first_scalar(t);
        assert(pop_first_scalar(bytes) =~= encode_utf8(rest));
        lemma_prefix_is_boundary(rest, k - 1);
        assert(t.take(k) =~= seq![t[0]] + rest.take(k - 1));
        lemma_encode_concat(seq![t[0]], rest.take(k - 1));
        lemma_encode_single(t[0]);
        lemma_prefix_len_monotonic(t, 0, k);
        lemma_width_bounds(t[0]);
    }
}

/// Cutting the encoded text between the ends of two prefixes yields the
/// encoding of the characters between them.
pub proof fn lemma_subrange_bytes(t: Seq<char>, a: int, b: int)
    requires
        0 <= a <= b <= t.len(),
    ensures
        utf8_len(t.take(a)) <= utf8_len(t.take(b)) <= utf8_len(t),
        encode_utf8(t).subrange(utf8_len(t.take(a)) as int, utf8_len(t.take(b)) as int)
            == encode_utf8(t.subrange(a, b)),
{
    lemma_prefix_len_monotonic(t, a, b);
    assert(t =~= t.take(a) + t.subrange(a, b) + t.skip(b));
    lemma_encode_concat(t.take(a) + t.subrange(a, b), t.skip(b));
    lemma_encode_concat(t.take(a), t.subrange(a, b));
    assert(encode_utf8(t).subrange(utf8_len(t.take(a)) as int, utf8_len(t.take(b)) as int)
        =~= encode_utf8(t.subrange(a, b)));
}

/// Two sequences of characters with the same encoding are equal.
pub proof fn lemma_encode_injective(x: Seq<char>, y: Seq<char>)
    requires
        encode_utf8(x) == encode_utf8(y),
    ensures
        x == y,
{
    encode_utf8_decode_utf8(x);
    encode_utf8_decode_utf8(y);
}

} // verus!
