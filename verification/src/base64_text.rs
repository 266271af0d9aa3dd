//! Standard base64 with padding, on the `base64` crate.
use base64::prelude::BASE64_STANDARD;
use base64::Engine;
use vstd::prelude::*;

verus! {

/// The symbol for six bits.
pub open spec fn symbol(n: int) -> char {
    if n < 26 {
        ((65 + n) as u8) as char
    } else if n < 52 {
        ((71 + n) as u8) as char
    } else if n < 62 {
        ((n - 4) as u8) as char
    } else if n == 62 {
        '+'
    } else {
        '/'
    }
}

/// The base64 text of some bytes: four symbols for every three bytes, the last
/// group filled up with equals signs.
pub open spec fn base64(b: Seq<u8>) -> Seq<char>
    decreases b.len(),
{
    if b.len() == 0 {
        seq![]
    } else if b.len() == 1 {
        seq![symbol(b[0] as int / 4), symbol(b[0] as int % 4 * 16), '=', '=']
    } else if b.len() == 2 {
        seq![
            symbol(b[0] as int / 4),
            symbol(b[0] as int % 4 * 16 + b[1] as int / 16),
            symbol(b[1] as int % 16 * 4),
            '=',
        ]
    } else {
        seq![
            symbol(b[0] as int / 4),
            symbol(b[0] as int % 4 * 16 + b[1] as int / 16),
            symbol(b[1] as int % 16 * 4 + b[2] as int / 64),
            symbol(b[2] as int % 64),
        ] + base64(b.skip(3))
    }
}

/// Whether `s` is the base64 text of some bytes.
pub open spec fn is_base64(s: Seq<char>) -> bool {
    exists|b: Seq<u8>| base64(b) == s
}

/// Whether `s` is the base64 text of at most `limit` bytes.
pub open spec fn is_short_base64(s: Seq<char>, limit: nat) -> bool {
    exists|b: Seq<u8>| base64(b) == s && b.len() <= limit
}

/// `Engine::encode` of the standard engine: the base64 text of the bytes.
#[verifier::external_body]
pub(crate) fn encode(bytes: &[u8]) -> (r: String)
    ensures
        r@ == base64(bytes@),
{
    BASE64_STANDARD.encode(bytes)
}

/// `Engine::decode` of the standard engine, which asks for full padding and for
/// unused bits that are zero: it succeeds on exactly the texts that encoding
/// gives, and returns the bytes that they came from.
#[verifier::external_body]
pub(crate) fn decode(s: &str) -> (r: Option<Vec<u8>>)
    ensures
        r is Some <==> is_base64(s@),
        r matches Some(bytes) ==> base64(bytes@) == s@,
{
    BASE64_STANDARD.decode(s).ok()
}

/// `Engine::decode_slice` of the standard engine: as `decode`, into a buffer,
/// with failure where the bytes do not fit.
#[verifier::external_body]
pub(crate) fn decode_into(s: &str, out: &mut Vec<u8>) -> (r: Option<usize>)
    ensures
        final(out)@.len() == old(out)@.len(),
        r is Some <==> is_short_base64(s@, old(out)@.len()),
        r matches Some(n) ==> n <= final(out)@.len() && base64(final(out)@.take(n as int)) == s@,
{
    BASE64_STANDARD.decode_slice(s, out.as_mut_slice()).ok()
}

proof fn lemma_symbol_one_to_one(m: int, n: int)
    requires
        0 <= m < 64,
        0 <= n < 64,
        symbol(m) == symbol(n),
    ensures
        m == n,
{
}

proof fn lemma_symbol_not_padding(n: int)
    requires
        0 <= n < 64,
    ensures
        symbol(n) != '=',
{
}

/// Different bytes have different base64 texts.
pub proof fn lemma_one_to_one(a: Seq<u8>, b: Seq<u8>)
    requires
        base64(a) == base64(b),
    ensures
        a == b,
    decreases a.len(),
{
    let s = base64(a);
    if a.len() == 0 {
        if b.len() > 0 {
            assert(base64(b).len() >= 4);
        }
        assert(a =~= b);
    } else if b.len() == 0 {
        assert(base64(a).len() >= 4);
    } else {
        let t = base64(b);
        assert(s[0] == t[0] && s[1] == t[1] && s[2] == t[2] && s[3] == t[3]);
        lemma_symbol_one_to_one(a[0] as int / 4, b[0] as int / 4);
        let a1 = if a.len() > 1 { a[1] as int } else { 0 };
        let b1 = if b.len() > 1 { b[1] as int } else { 0 };
        lemma_symbol_one_to_one(a[0] as int % 4 * 16 + a1 / 16, b[0] as int % 4 * 16 + b1 / 16);
        assert(a[0] == b[0]);
        assert(a1 / 16 == b1 / 16);
        let a2 = if a.len() > 2 { a[2] as int } else { 0 };
        let b2 = if b.len() > 2 { b[2] as int } else { 0 };
        lemma_symbol_not_padding(a1 % 16 * 4 + a2 / 64);
        lemma_symbol_not_padding(b1 % 16 * 4 + b2 / 64);
        lemma_symbol_not_padding(a2 % 64);
        lemma_symbol_not_padding(b2 % 64);
        if a.len() > 1 {
            assert(b.len() > 1);
            lemma_symbol_one_to_one(a1 % 16 * 4 + a2 / 64, b1 % 16 * 4 + b2 / 64);
            assert(a[1] == b[1]);
        }
        if a.len() > 2 {
            assert(b.len() > 2);
            lemma_symbol_one_to_one(a2 % 64, b2 % 64);
            assert(a[2] == b[2]);
            assert(s.skip(4) =~= base64(a.skip(3)));
            assert(t.skip(4) =~= base64(b.skip(3)));
            lemma_one_to_one(a.skip(3), b.skip(3));
            assert forall|i: int| 0 <= i < a.len() && i < b.len() implies a[i] == b[i] by {
                if i >= 3 {
                    assert(a.skip(3)[i - 3] == b.skip(3)[i - 3]);
                }
            }
            assert(a.len() == a.skip(3).len() + 3);
            assert(b.len() == b.skip(3).len() + 3);
        }
        assert(a =~= b);
    }
}

} // verus!
