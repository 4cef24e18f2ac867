//! Texts measured and cut in bytes of their UTF-8 encoding.

use vstd::prelude::*;
use vstd::utf8::*;

verus! {

/// The length of `s` in bytes.
pub open spec fn byte_len(s: Seq<char>) -> nat {
    encode_utf8(s).len()
}

/// `s` can be cut behind its first `n` bytes: that many bytes are whole characters.
pub open spec fn cuttable(s: Seq<char>, n: int) -> bool {
    is_char_boundary(encode_utf8(s), n)
}

/// The first `n` bytes of `s`, where it is [`cuttable`] there.
pub open spec fn byte_prefix(s: Seq<char>, n: int) -> Seq<char> {
    decode_utf8(encode_utf8(s).subrange(0, n))
}

/// What stands behind the first `n` bytes of `s`, where it is [`cuttable`] there.
pub open spec fn byte_suffix(s: Seq<char>, n: int) -> Seq<char> {
    decode_utf8(encode_utf8(s).subrange(n, encode_utf8(s).len() as int))
}

/// The last place, at most behind `n` bytes, at which `s` can be cut.
pub open spec fn last_cut(s: Seq<char>, n: int) -> int
    decreases n,
{
    if n <= 0 {
        0
    } else if cuttable(s, n) {
        n
    } else {
        last_cut(s, n - 1)
    }
}

/// The length of `s` in bytes.
pub fn len(s: &str) -> (n: usize)
    ensures
        n == byte_len(s@),
{
    s.as_bytes().len()
}

/// Whether `s` can be cut behind its first `n` bytes.
pub fn can_cut(s: &str, n: usize) -> (r: bool)
    ensures
        r == cuttable(s@, n as int),
{
    s.is_char_boundary(n)
}

/// The first `n` bytes of `s`.
pub fn prefix(s: &str, n: usize) -> (r: &str)
    requires
        cuttable(s@, n as int),
    ensures
        r@ == byte_prefix(s@, n as int),
{
    let r: (&str, &str) = s.split_at(n);
    proof {
        encode_utf8_decode_utf8(r.0@);
    }
    r.0
}

/// The whole characters in the first `n` bytes of `s`.
pub fn prefix_within(s: &str, n: usize) -> (r: &str)
    ensures
        r@ == byte_prefix(s@, last_cut(s@, n as int)),
{
    let mut k: usize = n;
    while k > 0 && !s.is_char_boundary(k)
        invariant
            last_cut(s@, n as int) == last_cut(s@, k as int),
        decreases k,
    {
        k = k - 1;
    }
    proof {
        lemma_last_cut(s@, n as int);
    }
    prefix(s, k)
}

/// What stands behind the first `n` bytes of `s`.
pub fn suffix(s: &str, n: usize) -> (r: &str)
    requires
        cuttable(s@, n as int),
    ensures
        r@ == byte_suffix(s@, n as int),
{
    let r: (&str, &str) = s.split_at(n);
    proof {
        encode_utf8_decode_utf8(r.1@);
    }
    r.1
}

/// What [`last_cut`] finds: a place at which the text can be cut, and none between it and `n`.
pub proof fn lemma_last_cut(s: Seq<char>, n: int)
    requires
        0 <= n,
    ensures
        0 <= last_cut(s, n) <= n,
        cuttable(s, last_cut(s, n)),
        forall|k: int| last_cut(s, n) < k <= n ==> !#[trigger] cuttable(s, k),
    decreases n,
{
    broadcast use encode_utf8_valid_utf8;

    if n == 0 {
        is_char_boundary_start_end_of_seq(encode_utf8(s));
    } else if !cuttable(s, n) {
        lemma_last_cut(s, n - 1);
    }
}

/// In a text of ASCII characters bytes and characters are the same positions.
pub proof fn lemma_ascii_cut(s: Seq<char>, n: int)
    requires
        is_ascii_chars(s),
        0 <= n <= s.len(),
    ensures
        byte_len(s) == s.len(),
        cuttable(s, n),
        byte_prefix(s, n) == s.take(n),
    decreases s.len(),
{
    broadcast use encode_utf8_valid_utf8;

    is_ascii_chars_encode_utf8(s);
    let bytes = encode_utf8(s);
    assert(bytes.len() == s.len());
    if n == s.len() {
        is_char_boundary_start_end_of_seq(bytes);
    } else if n > 0 {
        assert(is_leading_byte_width_1(bytes[n]));
        is_char_boundary_iff_is_leading_byte(bytes, n);
    }
    is_ascii_chars_encode_utf8(s.take(n));
    assert(encode_utf8(s.take(n)) =~= bytes.subrange(0, n));
    encode_utf8_decode_utf8(s.take(n));
}

// ---------------------------------------------------------------------------
// Laws
// ---------------------------------------------------------------------------

/// A cut loses nothing: what stands before it, as long as was asked for, and what stands behind it
/// are together the text.
pub proof fn law_cuts_lose_nothing(s: Seq<char>, n: int)
    requires
        cuttable(s, n),
    ensures
        byte_prefix(s, n) + byte_suffix(s, n) == s,
        byte_len(byte_prefix(s, n)) == n,
{
    let bytes = encode_utf8(s);
    encode_utf8_valid_utf8(s);
    encode_utf8_decode_utf8(s);
    decode_utf8_split(bytes, n);
    valid_utf8_split(bytes, n);
    decode_utf8_encode_utf8(bytes.subrange(0, n));
}

proof fn lemma_encoded_together(a: Seq<char>, b: Seq<char>)
    ensures
        encode_utf8(a + b) == encode_utf8(a) + encode_utf8(b),
        cuttable(a + b, byte_len(a) as int),
    decreases a.len(),
{
    encode_utf8_valid_utf8(a + b);
    if a.len() == 0 {
        assert(a + b =~= b);
        assert(encode_utf8(a) + encode_utf8(b) =~= encode_utf8(b));
    } else {
        let rest = a.drop_first();
        lemma_encoded_together(rest, b);
        assert((a + b).drop_first() =~= rest + b);
        assert((a + b)[0] == a[0]);
        assert(encode_utf8(a + b) =~= encode_utf8(a) + encode_utf8(b));
        encode_utf8_first_scalar(a + b);
        assert(pop_first_scalar(encode_utf8(a + b)) =~= encode_utf8(rest + b));
        encode_utf8_valid_utf8(rest + b);
    }
}

/// Between two texts there is a cut, behind the bytes of the first one.
pub proof fn law_texts_can_be_parted(a: Seq<char>, b: Seq<char>)
    ensures
        byte_len(a + b) == byte_len(a) + byte_len(b),
        cuttable(a + b, byte_len(a) as int),
        byte_prefix(a + b, byte_len(a) as int) == a,
        byte_suffix(a + b, byte_len(a) as int) == b,
{
    lemma_encoded_together(a, b);
    let whole = encode_utf8(a + b);
    let n = byte_len(a) as int;
    assert(whole.subrange(0, n) =~= encode_utf8(a));
    assert(whole.subrange(n, whole.len() as int) =~= encode_utf8(b));
    encode_utf8_decode_utf8(a);
    encode_utf8_decode_utf8(b);
}

} // verus!
