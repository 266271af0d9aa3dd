//! Bytes as base64 text, as JSON carries them.
use crate::base64_text;
use vstd::prelude::*;

verus! {

/// The bytes that a base64 text stands for, if it is one.
pub fn deserialize(s: &str) -> (r: Option<Vec<u8>>)
    ensures
        r is Some <==> base64_text::is_base64(s@),
        r matches Some(bytes) ==> base64_text::base64(bytes@) == s@,
{
    base64_text::decode(s)
}

/// The base64 text of the bytes.
pub fn serialize(bytes: &Vec<u8>) -> (r: String)
    ensures
        r@ == base64_text::base64(bytes@),
{
    base64_text::encode(bytes.as_slice())
}

/// Bytes that were written out are read back as they were.
pub proof fn law_deserialize_undoes_serialize(written: Seq<u8>, read: Seq<u8>)
    requires
        base64_text::base64(read) == base64_text::base64(written),
    ensures
        read == written,
{
    base64_text::lemma_one_to_one(read, written);
}

} // verus!
