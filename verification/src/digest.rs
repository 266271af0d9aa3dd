//! SHA-256 digests and hexadecimal text, on the `sha2` and `hex` crates.
use sha2::{Digest, Sha256};
use vstd::prelude::*;

verus! {

/// The SHA-256 digest of some bytes.
pub uninterp spec fn sha256(data: Seq<u8>) -> Seq<u8>;

/// The small hexadecimal digit for a number below sixteen.
pub open spec fn hex_digit(n: u8) -> char {
    if n < 10 {
        ((48 + n) as u8) as char
    } else {
        ((87 + n) as u8) as char
    }
}

/// Two small hexadecimal digits for each byte, the high one first.
pub open spec fn hex_text(bytes: Seq<u8>) -> Seq<char>
    decreases bytes.len(),
{
    if bytes.len() == 0 {
        seq![]
    } else {
        hex_text(bytes.drop_last()) + seq![
            hex_digit(bytes.last() / 16),
            hex_digit(bytes.last() % 16),
        ]
    }
}

/// `Sha256::new`, `update` and `finalize`: the digest of the bytes, which is
/// thirty-two bytes long.
#[verifier::external_body]
pub(crate) fn sha256_of(data: &[u8]) -> (r: Vec<u8>)
    ensures
        r@ == sha256(data@),
        r@.len() == 32,
{
    let mut hasher = Sha256::new();
    hasher.update(data);
    hasher.finalize().to_vec()
}

/// `hex::encode`: two small hexadecimal digits for each byte.
#[verifier::external_body]
pub(crate) fn hex_of(bytes: &[u8]) -> (r: String)
    ensures
        r@ == hex_text(bytes@),
{
    hex::encode(bytes)
}

/// Hexadecimal text has two characters for each byte.
pub proof fn lemma_hex_len(bytes: Seq<u8>)
    ensures
        hex_text(bytes).len() == 2 * bytes.len(),
    decreases bytes.len(),
{
    if bytes.len() > 0 {
        lemma_hex_len(bytes.drop_last());
    }
}

/// Different bytes have different hexadecimal texts.
pub proof fn law_hex_text_is_one_to_one(a: Seq<u8>, b: Seq<u8>)
    requires
        hex_text(a) == hex_text(b),
    ensures
        a == b,
    decreases a.len(),
{
    lemma_hex_len(a);
    lemma_hex_len(b);
    if a.len() == 0 {
        assert(a =~= b);
    } else {
        let n = a.len() as int;
        lemma_hex_len(a.drop_last());
        lemma_hex_len(b.drop_last());
        assert(hex_text(a)[2 * n - 2] == hex_digit(a.last() / 16));
        assert(hex_text(a)[2 * n - 1] == hex_digit(a.last() % 16));
        assert(hex_text(b)[2 * n - 2] == hex_digit(b.last() / 16));
        assert(hex_text(b)[2 * n - 1] == hex_digit(b.last() % 16));
        assert(a.last() / 16 == b.last() / 16);
        assert(a.last() % 16 == b.last() % 16);
        assert(a.last() == b.last());
        assert(hex_text(a).take(2 * n - 2) =~= hex_text(a.drop_last()));
        assert(hex_text(b).take(2 * n - 2) =~= hex_text(b.drop_last()));
        law_hex_text_is_one_to_one(a.drop_last(), b.drop_last());
        assert(a =~= a.drop_last().push(a.last()));
        assert(b =~= b.drop_last().push(b.last()));
    }
}

/// Hexadecimal text is made of the digits and the small letters up to `f`, and the two
/// characters of a byte say its value.
pub proof fn law_hex_text_says_each_byte(bytes: Seq<u8>, i: int)
    requires
        0 <= i < bytes.len(),
    ensures
        hex_text(bytes).len() == 2 * bytes.len(),
        ({
            let high = hex_text(bytes)[2 * i];
            let low = hex_text(bytes)[2 * i + 1];
            let h = if high <= '9' {
                high as u32 - 48
            } else {
                high as u32 - 87
            };
            let l = if low <= '9' {
                low as u32 - 48
            } else {
                low as u32 - 87
            };
            &&& '0' <= high <= '9' || 'a' <= high <= 'f'
            &&& '0' <= low <= '9' || 'a' <= low <= 'f'
            &&& bytes[i] == 16 * h + l
        }),
    decreases bytes.len(),
{
    lemma_hex_len(bytes);
    lemma_hex_len(bytes.drop_last());
    if i < bytes.len() - 1 {
        law_hex_text_says_each_byte(bytes.drop_last(), i);
    }
}

/// Every character of a hexadecimal text is a digit or a small letter up to `f`.
pub proof fn lemma_hex_digits(bytes: Seq<u8>)
    ensures
        forall|k: int|
            0 <= k < hex_text(bytes).len() ==> '0' <= #[trigger] hex_text(bytes)[k] <= '9' || 'a'
                <= hex_text(bytes)[k] <= 'f',
{
    lemma_hex_len(bytes);
    assert forall|k: int| 0 <= k < hex_text(bytes).len() implies '0' <= #[trigger] hex_text(
        bytes,
    )[k] <= '9' || 'a' <= hex_text(bytes)[k] <= 'f' by {
        law_hex_text_says_each_byte(bytes, k / 2);
        assert(k == 2 * (k / 2) || k == 2 * (k / 2) + 1);
    }
}

} // verus!
