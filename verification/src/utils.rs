//! User hashes, checksums, compressed storage and key validation.
use crate::constants;
use crate::digest;
use crate::text;
use crate::types::config::{Config, KeyValidationError};
use vstd::prelude::*;
use vstd::slice::{slice_subrange, slice_to_vec};
use vstd::utf8::encode_utf8;

verus! {

/// The smallest buffer that unpacking begins with.
const SMALLEST_BUFFER: usize = 1024;

/// The largest buffer that unpacking begins with.
const DECOMPRESS_INITIAL_CAPACITY_CAP: usize = 65_536;

/// The name under which a user's rows are stored.
pub open spec fn user_hash(user_id: Seq<char>) -> Seq<char> {
    "settings:"@ + digest::hex_text(digest::sha256(encode_utf8(user_id)).take(8))
}

/// The checksum of a value: the first bytes of its SHA-256 digest.
pub open spec fn checksum_of(data: Seq<u8>) -> Seq<char> {
    digest::hex_text(digest::sha256(data).take(constants::CHECKSUM_BYTES as int))
}

/// The name under which a user's rows are stored, given the digest of the user.
pub fn user_hash_of_digest(sum: &[u8]) -> (r: String)
    requires
        sum@.len() >= 8,
    ensures
        r@ == "settings:"@ + digest::hex_text(sum@.take(8)),
{
    let head = slice_subrange(sum, 0, 8);
    assert(head@ =~= sum@.take(8));
    let digits = digest::hex_of(head);
    text::concat("settings:", digits.as_str())
}

/// The checksum of a value, given its digest.
pub fn checksum_of_digest(sum: &[u8]) -> (r: String)
    requires
        sum@.len() >= constants::CHECKSUM_BYTES,
    ensures
        r@ == digest::hex_text(sum@.take(constants::CHECKSUM_BYTES as int)),
{
    let head = slice_subrange(sum, 0, constants::CHECKSUM_BYTES);
    assert(head@ =~= sum@.take(constants::CHECKSUM_BYTES as int));
    digest::hex_of(head)
}

/// The name under which a user's rows are stored.
pub fn hash_user_id(user_id: &str) -> (r: String)
    ensures
        r@ == user_hash(user_id@),
{
    let sum = digest::sha256_of(user_id.as_bytes());
    user_hash_of_digest(sum.as_slice())
}

/// The checksum of a value.
pub fn compute_checksum(data: &[u8]) -> (r: String)
    ensures
        r@ == checksum_of(data@),
{
    let sum = digest::sha256_of(data);
    checksum_of_digest(sum.as_slice())
}

/// The four bytes that a zstd frame begins with.
pub open spec fn zstd_magic() -> Seq<u8> {
    seq![0x28u8, 0xb5u8, 0x2fu8, 0xfdu8]
}

/// Whether some bytes begin as a zstd frame does.
pub open spec fn has_magic(data: Seq<u8>) -> bool {
    zstd_magic().is_prefix_of(data)
}

/// The frame that zstd makes of some bytes at a level.
pub uninterp spec fn zstd_frame(data: Seq<u8>, level: i32) -> Seq<u8>;

/// What zstd unpacks some bytes to, or `None` if they are no zstd data.
pub uninterp spec fn zstd_content(data: Seq<u8>) -> Option<Seq<u8>>;

/// `zstd::bulk::compress`: where it succeeds, the frame begins with the magic
/// bytes and unpacks to the data. It may fail for want of memory, and nothing is
/// said about when it does.
#[verifier::external_body]
fn zstd_compress(data: &[u8], level: i32) -> (r: Option<Vec<u8>>)
    ensures
        r matches Some(out) ==> out@ == zstd_frame(data@, level),
        r matches Some(out) ==> has_magic(out@) && zstd_content(out@) == Some(data@),
{
    zstd::bulk::compress(data, level).ok()
}

/// `zstd::bulk::decompress_to_buffer`: unpacks into the front of the buffer and
/// says how much was written. It fails where the bytes are no zstd data or what
/// they unpack to is longer than the buffer.
#[verifier::external_body]
fn zstd_decompress_into(data: &[u8], out: &mut Vec<u8>) -> (r: Option<usize>)
    ensures
        final(out)@.len() == old(out)@.len(),
        r matches Some(n) ==> n <= final(out)@.len() && zstd_content(data@) == Some(
            final(out)@.take(n as int),
        ),
        r is None ==> (zstd_content(data@) is None || zstd_content(data@)->0.len() > old(
            out,
        )@.len()),
{
    zstd::bulk::decompress_to_buffer(data, out.as_mut_slice()).ok()
}

/// Whether some bytes begin as a zstd frame does.
pub fn starts_with_zstd_magic(data: &[u8]) -> (r: bool)
    ensures
        r == has_magic(data@),
{
    if data.len() < 4 {
        return false;
    }
    let r = data[0] == 0x28 && data[1] == 0xb5 && data[2] == 0x2f && data[3] == 0xfd;
    proof {
        let head = data@.subrange(0, 4);
        if r {
            assert(head =~= zstd_magic());
        } else {
            assert(head[0] == data@[0] && head[1] == data@[1]);
            assert(head[2] == data@[2] && head[3] == data@[3]);
        }
    }
    r
}

/// The bytes that are stored for a value, given what compressing it came to.
/// Compression is used where it is switched on and makes the value smaller. A
/// value that itself looks like a zstd frame is compressed in any case, so that
/// a read can tell the two apart.
pub open spec fn stored_form(data: Seq<u8>, enabled: bool, packed: Option<Seq<u8>>) -> Seq<u8> {
    if data.len() == 0 || (!enabled && !has_magic(data)) {
        data
    } else {
        match packed {
            Some(p) => if !has_magic(data) && p.len() >= data.len() {
                data
            } else {
                p
            },
            None => data,
        }
    }
}

/// What a read makes of stored bytes.
pub open spec fn unpacked(data: Seq<u8>) -> Seq<u8> {
    if !has_magic(data) {
        data
    } else {
        match zstd_content(data) {
            Some(c) => if c.len() <= constants::MAX_DECOMPRESSION_SIZE {
                c
            } else {
                data
            },
            None => data,
        }
    }
}

/// Picks what to store, given what compressing the value came to.
pub fn choose_stored_form(data: &[u8], enabled: bool, packed: Option<Vec<u8>>) -> (r: Vec<u8>)
    ensures
        r@ == stored_form(
            data@,
            enabled,
            match packed {
                Some(p) => Some(p@),
                None => None,
            },
        ),
{
    let must_disambiguate = starts_with_zstd_magic(data);
    if data.len() == 0 || (!enabled && !must_disambiguate) {
        return slice_to_vec(data);
    }
    match packed {
        Some(p) => if !must_disambiguate && p.len() >= data.len() {
            slice_to_vec(data)
        } else {
            p
        },
        None => slice_to_vec(data),
    }
}

/// Whether `r` is what is stored for a value: what compressing it came to, or what
/// is stored where compressing fails. What is not the value itself begins as a zstd
/// frame does. A read gives the value back, unless the
/// value is larger than a read unpacks, or it looks like a zstd frame and had to
/// be stored as it is because compressing it failed.
pub open spec fn stores(config: Config, data: Seq<u8>, r: Seq<u8>) -> bool {
    let frame = zstd_frame(data, config.compression_level);
    &&& {
        ||| r == stored_form(data, config.compression_enabled, Some(frame))
        ||| r == stored_form(data, config.compression_enabled, None)
    }
    &&& r != data ==> has_magic(r)
    &&& data.len() <= constants::MAX_DECOMPRESSION_SIZE && !has_magic(data) ==> unpacked(r) == data
    &&& data.len() <= constants::MAX_DECOMPRESSION_SIZE && r != data ==> unpacked(r) == data
}

/// The bytes that are stored for a value.
pub fn compress(config: &Config, data: &[u8]) -> (r: Vec<u8>)
    ensures
        stores(*config, data@, r@),
{
    if data.len() == 0 || (!config.compression_enabled && !starts_with_zstd_magic(data)) {
        return slice_to_vec(data);
    }
    let packed = zstd_compress(data, config.compression_level);
    choose_stored_form(data, config.compression_enabled, packed)
}

/// What a read makes of stored bytes. The buffer doubles until the content fits
/// or the limit is reached.
pub fn decompress(data: &[u8]) -> (r: Vec<u8>)
    ensures
        r@ == unpacked(data@),
{
    if !starts_with_zstd_magic(data) {
        return slice_to_vec(data);
    }
    let mut size: usize = if data.len() <= DECOMPRESS_INITIAL_CAPACITY_CAP / 4 {
        data.len() * 4
    } else {
        DECOMPRESS_INITIAL_CAPACITY_CAP
    };
    if size < SMALLEST_BUFFER {
        size = SMALLEST_BUFFER;
    }
    let mut output: Vec<u8> = Vec::new();
    loop
        invariant
            has_magic(data@),
            SMALLEST_BUFFER <= size <= constants::MAX_DECOMPRESSION_SIZE,
        decreases constants::MAX_DECOMPRESSION_SIZE - size,
    {
        output.resize(size, 0);
        match zstd_decompress_into(data, &mut output) {
            Some(n) => {
                output.truncate(n);
                return output;
            },
            None => {
                if size < constants::MAX_DECOMPRESSION_SIZE {
                    if size > constants::MAX_DECOMPRESSION_SIZE / 2 {
                        size = constants::MAX_DECOMPRESSION_SIZE;
                    } else {
                        size = size * 2;
                    }
                } else {
                    return slice_to_vec(data);
                }
            },
        }
    }
}

/// A value that was stored in compressed form is read back as it was, whatever
/// frame the compression made of it.
pub proof fn law_decompress_undoes_compress(data: Seq<u8>, enabled: bool, packed: Option<Seq<u8>>)
    requires
        data.len() <= constants::MAX_DECOMPRESSION_SIZE,
        packed matches Some(p) ==> has_magic(p) && zstd_content(p) == Some(data),
        packed is Some || !has_magic(data),
    ensures
        unpacked(stored_form(data, enabled, packed)) == data,
{
}

/// Storing never takes more room than the value itself, except for a value that
/// looks like a zstd frame.
pub proof fn law_stored_form_is_no_larger(data: Seq<u8>, enabled: bool, packed: Option<Seq<u8>>)
    requires
        !has_magic(data),
    ensures
        stored_form(data, enabled, packed).len() <= data.len(),
{
}

/// The characters that a key may hold.
pub open spec fn key_char(c: char) -> bool {
    ||| 'a' <= c <= 'z'
    ||| 'A' <= c <= 'Z'
    ||| '0' <= c <= '9'
    ||| c == '_'
    ||| c == '-'
    ||| c == '.'
    ||| c == '/'
}

/// The parts of a key between slashes.
pub open spec fn segments(key: Seq<char>) -> Seq<Seq<char>> {
    text::split_on(key, |c: char| c == '/')
}

/// Whether a key is a path that stays where it is: it holds only the accepted
/// characters, no two dots in a row, and none of its parts is empty or begins
/// with a dot.
pub open spec fn well_formed_key(key: Seq<char>) -> bool {
    &&& forall|i: int| 0 <= i < key.len() ==> key_char(#[trigger] key[i])
    &&& !text::has_double(key, '.')
    &&& forall|j: int|
        0 <= j < segments(key).len() ==> (#[trigger] segments(key)[j]).len() > 0 && segments(
            key,
        )[j][0] != '.'
}

/// Why a key is refused, or `None` if it is accepted.
pub open spec fn key_error(key: Seq<char>) -> Option<KeyValidationError> {
    if key.len() == 0 {
        Some(KeyValidationError::Empty)
    } else if encode_utf8(key).len() > constants::MAX_KEY_NAME_LEN {
        Some(KeyValidationError::TooLong)
    } else if !well_formed_key(key) {
        Some(KeyValidationError::InvalidChars)
    } else {
        None
    }
}

fn is_key_char(c: char) -> (r: bool)
    ensures
        r == key_char(c),
{
    ('a' <= c && c <= 'z') || ('A' <= c && c <= 'Z') || ('0' <= c && c <= '9') || c == '_' || c
        == '-' || c == '.' || c == '/'
}

fn all_key_chars(key: &str) -> (r: bool)
    ensures
        r == (forall|i: int| 0 <= i < key@.len() ==> key_char(#[trigger] key@[i])),
{
    let x = text::chars_of(key);
    let mut i: usize = 0;
    while i < x.len()
        invariant
            x@ == key@,
            i <= x@.len(),
            forall|j: int| 0 <= j < i ==> key_char(#[trigger] key@[j]),
        decreases x@.len() - i,
    {
        if !is_key_char(x[i]) {
            assert(!key_char(key@[i as int]));
            return false;
        }
        i = i + 1;
    }
    true
}

fn all_good_segments(key: &str) -> (r: bool)
    ensures
        r == (forall|j: int|
            0 <= j < segments(key@).len() ==> (#[trigger] segments(key@)[j]).len() > 0 && segments(
                key@,
            )[j][0] != '.'),
{
    let parts = text::split_char(key, '/');
    let mut i: usize = 0;
    while i < parts.len()
        invariant
            text::views(parts@) == segments(key@),
            i <= parts@.len(),
            forall|j: int|
                0 <= j < i ==> (#[trigger] segments(key@)[j]).len() > 0 && segments(key@)[j][0]
                    != '.',
        decreases parts@.len() - i,
    {
        let part = parts[i];
        assert(text::views(parts@)[i as int] == part@);
        if part.unicode_len() == 0 || part.get_char(0) == '.' {
            assert(!(segments(key@)[i as int].len() > 0 && segments(key@)[i as int][0] != '.'));
            return false;
        }
        i = i + 1;
    }
    assert(text::views(parts@).len() == parts@.len());
    true
}

/// Whether a key is accepted, and why not if it is not.
pub fn validate_key(key: &str) -> (r: Result<(), KeyValidationError>)
    ensures
        r == (match key_error(key@) {
            Some(e) => Err::<(), KeyValidationError>(e),
            None => Ok::<(), KeyValidationError>(()),
        }),
{
    if key.unicode_len() == 0 {
        return Err(KeyValidationError::Empty);
    }
    if key.as_bytes().len() > constants::MAX_KEY_NAME_LEN {
        return Err(KeyValidationError::TooLong);
    }
    if !all_key_chars(key) {
        return Err(KeyValidationError::InvalidChars);
    }
    if text::contains_double(key, '.') || !all_good_segments(key) {
        return Err(KeyValidationError::InvalidChars);
    }
    Ok(())
}

proof fn lemma_leading_separator(s: Seq<char>, sep: spec_fn(char) -> bool)
    requires
        s.len() > 0,
        sep(s[0]),
    ensures
        text::split_on(s, sep).len() >= 2,
        text::split_on(s, sep)[0].len() == 0,
    decreases s.len(),
{
    if s.len() > 1 {
        lemma_leading_separator(s.drop_last(), sep);
    } else {
        assert(s.drop_last() =~= Seq::<char>::empty());
        assert(text::split_on(Seq::<char>::empty(), sep) =~= seq![Seq::<char>::empty()]);
    }
}

proof fn lemma_double_separator(s: Seq<char>, sep: spec_fn(char) -> bool, i: int) -> (j: int)
    requires
        0 <= i < s.len() - 1,
        sep(s[i]),
        sep(s[i + 1]),
    ensures
        0 <= j < text::split_on(s, sep).len() - 1,
        text::split_on(s, sep)[j].len() == 0,
    decreases s.len(),
{
    let t = s.drop_last();
    text::lemma_split_nonempty(t, sep);
    if i + 1 == s.len() - 1 {
        text::lemma_split_nonempty(t.drop_last(), sep);
        text::split_on(t, sep).len() - 1
    } else {
        lemma_double_separator(t, sep, i)
    }
}

/// An accepted key neither begins nor ends with a slash, holds no two slashes in
/// a row and does not begin with a dot.
pub proof fn law_accepted_key_is_a_plain_path(key: Seq<char>)
    requires
        key_error(key) is None,
    ensures
        0 < key.len(),
        encode_utf8(key).len() <= constants::MAX_KEY_NAME_LEN,
        key[0] != '/',
        key[0] != '.',
        key.last() != '/',
        !text::has_double(key, '/'),
        !text::has_double(key, '.'),
        forall|i: int| 0 <= i < key.len() ==> key_char(#[trigger] key[i]),
{
    let sep = |c: char| c == '/';
    if key[0] == '/' {
        lemma_leading_separator(key, sep);
        assert(segments(key)[0].len() == 0);
    }
    if key.last() == '/' {
        text::lemma_split_nonempty(key.drop_last(), sep);
        assert(segments(key).last().len() == 0);
    }
    if text::has_double(key, '/') {
        let i = choose|i: int|
            0 <= i < key.len() - 1 && key[i] == '/' && #[trigger] key[i + 1] == '/';
        let j = lemma_double_separator(key, sep, i);
        assert(segments(key)[j].len() == 0);
    }
    lemma_first_character(key, sep);
    assert(segments(key)[0].len() > 0);
}

proof fn lemma_first_character(s: Seq<char>, sep: spec_fn(char) -> bool)
    requires
        s.len() > 0,
        !sep(s[0]),
    ensures
        text::split_on(s, sep).len() > 0,
        text::split_on(s, sep)[0].len() > 0,
        text::split_on(s, sep)[0][0] == s[0],
    decreases s.len(),
{
    text::lemma_split_nonempty(s.drop_last(), sep);
    if s.len() > 1 {
        lemma_first_character(s.drop_last(), sep);
    } else {
        assert(s.drop_last() =~= Seq::<char>::empty());
        assert(text::split_on(Seq::<char>::empty(), sep) =~= seq![Seq::<char>::empty()]);
    }
}

/// A key is accepted just if it is not empty, no longer than the limit, made of ASCII
/// letters, digits, `_`, `-`, `.` and `/`, begins with neither `/` nor `.`, does not end
/// with `/`, and holds none of `..`, `//` and `/.`. An empty key is refused as empty, a
/// long one as too long, whatever else is wrong with it.
pub proof fn law_key_is_accepted_just_if_it_is_a_plain_path(key: Seq<char>)
    ensures
        key_error(key) is None <==> {
            &&& key.len() > 0
            &&& encode_utf8(key).len() <= 256
            &&& forall|i: int|
                0 <= i < key.len() ==> {
                    ||| 'a' <= #[trigger] key[i] <= 'z'
                    ||| 'A' <= key[i] <= 'Z'
                    ||| '0' <= key[i] <= '9'
                    ||| key[i] == '_'
                    ||| key[i] == '-'
                    ||| key[i] == '.'
                    ||| key[i] == '/'
                }
            &&& key[0] != '/' && key[0] != '.' && key[key.len() - 1] != '/'
            &&& forall|i: int|
                0 <= i < key.len() - 1 ==> {
                    &&& !(key[i] == '.' && #[trigger] key[i + 1] == '.')
                    &&& !(key[i] == '/' && key[i + 1] == '/')
                    &&& !(key[i] == '/' && key[i + 1] == '.')
                }
        },
        key_error(key) == Some(KeyValidationError::Empty) <==> key.len() == 0,
        key_error(key) == Some(KeyValidationError::TooLong) <==> key.len() > 0 && encode_utf8(
            key,
        ).len() > 256,
{
    let sep = |c: char| c == '/';
    if key_error(key) is None {
        law_accepted_key_is_a_plain_path(key);
        assert forall|i: int| 0 <= i < key.len() - 1 implies {
            &&& !(key[i] == '.' && #[trigger] key[i + 1] == '.')
            &&& !(key[i] == '/' && key[i + 1] == '/')
            &&& !(key[i] == '/' && key[i + 1] == '.')
        } by {
            if key[i] == '/' && key[i + 1] == '.' {
                let rest = key.skip(i + 1);
                text::lemma_position(rest, '/');
                let a = i + 1;
                let b = a + text::position(rest, '/');
                assert(rest[0] == '.');
                assert(b > a);
                assert forall|k: int| a <= k < b implies !sep(#[trigger] key[k]) by {
                    if key[k] == '/' {
                        assert(rest.take(b - a)[k - a] == '/');
                    }
                }
                if b < key.len() {
                    assert(rest[b - a] == key[b]);
                }
                assert(text::stands_between(key, sep, a, b));
                text::lemma_standing_is_a_piece(key, sep, a, b);
                let j = choose|j: int|
                    0 <= j < segments(key).len() && segments(key)[j] == key.subrange(a, b);
                assert(segments(key)[j][0] == '.');
            }
        }
    } else if key.len() > 0 && encode_utf8(key).len() <= 256 {
        let plain = {
            &&& forall|i: int|
                0 <= i < key.len() ==> {
                    ||| 'a' <= #[trigger] key[i] <= 'z'
                    ||| 'A' <= key[i] <= 'Z'
                    ||| '0' <= key[i] <= '9'
                    ||| key[i] == '_'
                    ||| key[i] == '-'
                    ||| key[i] == '.'
                    ||| key[i] == '/'
                }
            &&& key[0] != '/' && key[0] != '.' && key[key.len() - 1] != '/'
            &&& forall|i: int|
                0 <= i < key.len() - 1 ==> {
                    &&& !(key[i] == '.' && #[trigger] key[i + 1] == '.')
                    &&& !(key[i] == '/' && key[i + 1] == '/')
                    &&& !(key[i] == '/' && key[i + 1] == '.')
                }
        };
        if plain {
            assert forall|j: int| 0 <= j < segments(key).len() implies (
            #[trigger] segments(key)[j]).len() > 0 && segments(key)[j][0] != '.' by {
                let p = segments(key)[j];
                assert(text::split_on(key, sep).contains(p));
                text::law_pieces_stand_between_separators(key, sep, p);
                let (a, b) = choose|a: int, b: int|
                    #[trigger] text::stands_between(key, sep, a, b) && p == key.subrange(a, b);
                if a > 0 {
                    assert(key[a - 1] == '/');
                    if a < key.len() {
                        assert(key[(a - 1) + 1] != '/');
                    }
                }
                if p.len() > 0 {
                    assert(p[0] == key[a]);
                }
            }
            assert(well_formed_key(key));
        }
    }
}

/// What is stored for a value: nothing for an empty one; the value itself where
/// compression is off and the value does not begin as a zstd frame; else the frame if
/// it is shorter, or if the value could be taken for a frame; and the value itself where
/// there is no frame.
pub proof fn law_what_is_stored(data: Seq<u8>, enabled: bool, packed: Option<Seq<u8>>)
    ensures
        ({
            let marked = data.len() >= 4 && data[0] == 0x28 && data[1] == 0xb5 && data[2] == 0x2f
                && data[3] == 0xfd;
            let stored = stored_form(data, enabled, packed);
            &&& data.len() == 0 ==> stored.len() == 0
            &&& !enabled && !marked ==> stored == data
            &&& packed is None ==> stored == data
            &&& enabled && !marked && packed is Some && packed->0.len() < data.len() ==> stored
                == packed->0
            &&& !marked && packed is Some && packed->0.len() >= data.len() ==> stored == data
            &&& marked && packed is Some ==> stored == packed->0
        }),
{
    lemma_magic(data);
}

/// Bytes begin as a zstd frame just if their first four are these.
pub proof fn lemma_magic(data: Seq<u8>)
    ensures
        has_magic(data) <==> data.len() >= 4 && data[0] == 0x28 && data[1] == 0xb5 && data[2] == 0x2f
            && data[3] == 0xfd,
{
    if data.len() >= 4 {
        let head = data.subrange(0, 4);
        assert(head[0] == data[0] && head[1] == data[1] && head[2] == data[2] && head[3]
            == data[3]);
        if data[0] == 0x28 && data[1] == 0xb5 && data[2] == 0x2f && data[3] == 0xfd {
            assert(head =~= zstd_magic());
        }
    }
}

/// Bytes that do not begin as a zstd frame are read as they are, and so are bytes that
/// unpack to more than the limit or to nothing.
pub proof fn law_what_is_no_frame_is_read_as_it_is(data: Seq<u8>)
    ensures
        data.len() < 4 || data[0] != 0x28 || data[1] != 0xb5 || data[2] != 0x2f || data[3] != 0xfd
            ==> unpacked(data) == data,
        zstd_content(data) is None ==> unpacked(data) == data,
        zstd_content(data) is Some && zstd_content(data)->0.len()
            > constants::MAX_DECOMPRESSION_SIZE ==> unpacked(data) == data,
        unpacked(data) == data || zstd_content(data) == Some(unpacked(data)),
{
    lemma_magic(data);
}

/// What is stored for a value is the value or its zstd frame; only the value where
/// compression is off and the value does not begin as a frame; and never more than the
/// value where it does not begin as one.
pub proof fn law_stored_bytes_are_the_value_or_its_frame(
    config: Config,
    data: Seq<u8>,
    stored: Seq<u8>,
)
    requires
        stores(config, data, stored),
    ensures
        ({
            let marked = data.len() >= 4 && data[0] == 0x28 && data[1] == 0xb5 && data[2] == 0x2f
                && data[3] == 0xfd;
            &&& stored == data || stored == zstd_frame(data, config.compression_level)
            &&& !config.compression_enabled && !marked ==> stored == data
            &&& !marked ==> stored.len() <= data.len()
            &&& data.len() == 0 ==> stored.len() == 0
            &&& !marked && data.len() <= constants::MAX_DECOMPRESSION_SIZE ==> unpacked(stored)
                == data
        }),
{
    lemma_magic(data);
}

/// Two users are stored under the same name only if the first eight bytes of their digests
/// agree, and every name begins in the same way.
pub proof fn law_names_differ_where_digests_do(a: Seq<char>, b: Seq<char>)
    ensures
        user_hash(a) == user_hash(b) <==> digest::sha256(encode_utf8(a)).take(8)
            == digest::sha256(encode_utf8(b)).take(8),
        "settings:"@.is_prefix_of(user_hash(a)),
        user_hash(a).skip("settings:"@.len() as int) == digest::hex_text(
            digest::sha256(encode_utf8(a)).take(8),
        ),
{
    let head = "settings:"@;
    let x = digest::sha256(encode_utf8(a)).take(8);
    let y = digest::sha256(encode_utf8(b)).take(8);
    assert(user_hash(a).skip(head.len() as int) =~= digest::hex_text(x));
    assert(user_hash(b).skip(head.len() as int) =~= digest::hex_text(y));
    assert(user_hash(a).subrange(0, head.len() as int) =~= head);
    if user_hash(a) == user_hash(b) {
        digest::law_hex_text_is_one_to_one(x, y);
    }
}

/// Two values have the same checksum only if the first sixteen bytes of their digests
/// agree.
pub proof fn law_checksums_differ_where_digests_do(a: Seq<u8>, b: Seq<u8>)
    ensures
        checksum_of(a) == checksum_of(b) <==> digest::sha256(a).take(16) == digest::sha256(b).take(
            16,
        ),
{
    if checksum_of(a) == checksum_of(b) {
        digest::law_hex_text_is_one_to_one(digest::sha256(a).take(16), digest::sha256(b).take(16));
    }
}

} // verus!
