//! MD5 digests and their textual form.
//!
//! The digest itself is computed by the `md5` crate. Nothing is proved about
//! that computation: the two functions at the end of this file call into the
//! crate, and their contracts are taken on trust.

use vstd::prelude::*;

verus! {

/// The MD5 digest of `data`, as the `md5` crate computes it: sixteen bytes.
pub uninterp spec fn md5_digest(data: Seq<u8>) -> Seq<u8>;

/// The sixteen lowercase hexadecimal digits, in order of value.
pub open spec fn hex_digits() -> Seq<char> {
    seq!['0', '1', '2', '3', '4', '5', '6', '7', '8', '9', 'a', 'b', 'c', 'd', 'e', 'f']
}

/// The lowercase hexadecimal text of `bytes`: two digits per byte, the high
/// half of each byte first.
pub open spec fn lower_hex(bytes: Seq<u8>) -> Seq<char> {
    Seq::new(
        2 * bytes.len(),
        |i: int|
            if i % 2 == 0 {
                hex_digits()[(bytes[i / 2] / 16) as int]
            } else {
                hex_digits()[(bytes[i / 2] % 16) as int]
            },
    )
}

/// Holds of the texts that a digest can have: thirty-two lowercase
/// hexadecimal digits.
pub open spec fn is_digest_text(text: Seq<char>) -> bool {
    &&& text.len() == 32
    &&& forall|i: int| 0 <= i < text.len() ==> hex_digits().contains(#[trigger] text[i])
}

/// The text of a byte string has two characters for each byte, and each of
/// them is a lowercase hexadecimal digit.
pub proof fn lemma_lower_hex_shape(bytes: Seq<u8>)
    ensures
        lower_hex(bytes).len() == 2 * bytes.len(),
        forall|i: int|
            0 <= i < lower_hex(bytes).len() ==> hex_digits().contains(
                #[trigger] lower_hex(bytes)[i],
            ),
{
}

/// Two byte strings have the same hexadecimal text only if they are the same.
pub proof fn lemma_lower_hex_injective(x: Seq<u8>, y: Seq<u8>)
    requires
        lower_hex(x) == lower_hex(y),
    ensures
        x == y,
{
    assert(x.len() == y.len()) by {
        assert(lower_hex(x).len() == 2 * x.len());
        assert(lower_hex(y).len() == 2 * y.len());
    }
    assert forall|i: int| 0 <= i < x.len() implies x[i] == y[i] by {
        assert(hex_digits().no_duplicates());
        assert(lower_hex(x)[2 * i] == hex_digits()[(x[i] / 16) as int]);
        assert(lower_hex(y)[2 * i] == hex_digits()[(y[i] / 16) as int]);
        assert(lower_hex(x)[2 * i + 1] == hex_digits()[(x[i] % 16) as int]);
        assert(lower_hex(y)[2 * i + 1] == hex_digits()[(y[i] % 16) as int]);
    }
    assert(x =~= y);
}

/// Calls `md5::compute` and hands back the sixteen bytes of the digest it
/// returns. Trusted: the result is the MD5 digest of `data`, a function of the
/// bytes alone.
#[verifier::external_body]
pub(crate) fn md5_compute(data: &[u8]) -> (digest: [u8; 16])
    ensures
        digest@ == md5_digest(data@),
{
    md5::compute(data).0
}

/// Formats a digest with the `Debug` impl of `md5::Digest`. Trusted: that impl
/// writes each byte as two lowercase hexadecimal digits, in order.
#[verifier::external_body]
pub(crate) fn digest_text(digest: [u8; 16]) -> (text: String)
    ensures
        text@ == lower_hex(digest@),
{
    format!("{:?}", md5::Digest(digest))
}

} // verus!
