//! Hashes of paths and queries, and how they are written down.

use vstd::prelude::*;

use crate::text;
use crate::text::{hex_digit, hex_fixed_text, signed_decimal_text};

verus! {

pub const FNV_OFFSET: u64 = 0xcbf29ce484222325;

pub const FNV_PRIME: u64 = 0x00000100000001b3;

/// One more byte goes into a hash: it is mixed into the low bits, and the whole is multiplied.
pub open spec fn fnv_step(hash: u64, byte: u8) -> u64 {
    (hash ^ (byte as u64)).wrapping_mul(FNV_PRIME)
}

/// All bytes go into a hash, in turn.
pub open spec fn fnv(hash: u64, bytes: Seq<u8>) -> u64
    decreases bytes.len(),
{
    if bytes.len() == 0 {
        hash
    } else {
        fnv_step(fnv(hash, bytes.drop_last()), bytes.last())
    }
}

/// Parts go into a hash in turn, each followed by a byte that no text has.
pub open spec fn fnv_parts(parts: Seq<Seq<char>>) -> u64
    decreases parts.len(),
{
    if parts.len() == 0 {
        FNV_OFFSET
    } else {
        fnv_step(
            fnv(fnv_parts(parts.drop_last()), vstd::utf8::encode_utf8(parts.last())),
            0xff,
        )
    }
}

fn fnv_bytes(hash: u64, bytes: &[u8]) -> (r: u64)
    ensures
        r == fnv(hash, bytes@),
{
    let mut h: u64 = hash;
    let mut i: usize = 0;
    assert(bytes@.take(0) =~= seq![]);
    while i < bytes.len()
        invariant
            i <= bytes@.len(),
            h == fnv(hash, bytes@.take(i as int)),
        decreases bytes@.len() - i,
    {
        assert(bytes@.take(i + 1).drop_last() =~= bytes@.take(i as int));
        h = (h ^ (bytes[i] as u64)).wrapping_mul(FNV_PRIME);
        i += 1;
    }
    assert(bytes@.take(i as int) =~= bytes@);
    h
}

/// A name for a path that is the same on every run.
pub fn stable_path_hash(path: &str) -> (r: String)
    ensures
        r@ == text::hex_fixed(fnv(FNV_OFFSET, vstd::utf8::encode_utf8(path@)) as nat, 16),
{
    hex_fixed_text(fnv_bytes(FNV_OFFSET, path.as_bytes()), 16)
}

/// A hash of several texts that is the same on every run.
pub fn stable_hash_parts(parts: &Vec<&str>) -> (r: u64)
    ensures
        r == fnv_parts(parts@.map_values(|s: &str| s@)),
{
    let ghost views = parts@.map_values(|s: &str| s@);
    let mut h: u64 = FNV_OFFSET;
    let mut i: usize = 0;
    assert(views.take(0) =~= seq![]);
    while i < parts.len()
        invariant
            i <= parts@.len(),
            views == parts@.map_values(|s: &str| s@),
            h == fnv_parts(views.take(i as int)),
        decreases parts@.len() - i,
    {
        assert(views.take(i + 1).drop_last() =~= views.take(i as int));
        assert(views.take(i + 1).last() == parts@[i as int]@);
        h = fnv_bytes(h, parts[i].as_bytes());
        h = (h ^ (0xffu8 as u64)).wrapping_mul(FNV_PRIME);
        i += 1;
    }
    assert(views.take(i as int) =~= views);
    h
}

/// The id under which it is kept which file was opened for a query.
pub fn query_match_id(workspace: &str, query: &str) -> (r: String)
    ensures
        r@ == "fff:assoc:"@ + text::hex_fixed(fnv_parts(seq![workspace@, query@]) as nat, 16),
{
    let parts = vec![workspace, query];
    assert(parts@.map_values(|s: &str| s@) =~= seq![workspace@, query@]);
    let mut id = String::new();
    id.append("fff:assoc:");
    id.append(hex_fixed_text(stable_hash_parts(&parts), 16).as_str());
    assert(id@ =~= "fff:assoc:"@ + text::hex_fixed(
        fnv_parts(seq![workspace@, query@]) as nat,
        16,
    ));
    id
}

/// The id under which it is kept that a query was made.
pub fn query_history_id(workspace: &str, kind: &str, query: &str, ts: i64) -> (r: String)
    ensures
        r@ == "fff:history:"@ + kind@ + seq![':'] + text::signed_decimal(ts as int) + seq![':']
            + text::hex_fixed(
            fnv_parts(
                seq![workspace@, kind@, query@, text::signed_decimal(ts as int)],
            ) as nat,
            16,
        ),
{
    let ts_string = signed_decimal_text(ts);
    let parts = vec![workspace, kind, query, ts_string.as_str()];
    assert(parts@.map_values(|s: &str| s@) =~= seq![
        workspace@,
        kind@,
        query@,
        text::signed_decimal(ts as int),
    ]);
    let mut id = String::new();
    id.append("fff:history:");
    id.append(kind);
    id.push(':');
    id.append(ts_string.as_str());
    id.push(':');
    id.append(hex_fixed_text(stable_hash_parts(&parts), 16).as_str());
    assert(id@ =~= "fff:history:"@ + kind@ + seq![':'] + text::signed_decimal(ts as int) + seq![':']
        + text::hex_fixed(
        fnv_parts(seq![workspace@, kind@, query@, text::signed_decimal(ts as int)]) as nat,
        16,
    ));
    id
}

/// What BLAKE3 makes of some bytes.
pub uninterp spec fn blake3_of(bytes: Seq<u8>) -> Seq<u8>;

/// `blake3::hash`: the BLAKE3 hash of the bytes, which depends on them alone. What the hash is of
/// given bytes is not said.
#[verifier::external_body]
fn blake3_hash(bytes: &[u8]) -> (r: [u8; 32])
    ensures
        r@ == blake3_of(bytes@),
{
    *blake3::hash(bytes).as_bytes()
}

/// The key of a project in stores written by earlier versions: the hash of its path.
pub fn legacy_project_key(project: &str) -> (r: [u8; 32])
    ensures
        r@ == blake3_of(vstd::utf8::encode_utf8(project@)),
{
    blake3_hash(project.as_bytes())
}

/// The key of a query in stores written by earlier versions: the hash of the project's path, two
/// colons and the query.
pub fn legacy_query_key(project: &str, query: &str) -> (r: [u8; 32])
    ensures
        r@ == blake3_of(
            vstd::utf8::encode_utf8(project@) + vstd::utf8::encode_utf8("::"@)
                + vstd::utf8::encode_utf8(query@),
        ),
{
    let mut keyed = String::new();
    keyed.append(project);
    keyed.append("::");
    keyed.append(query);
    proof {
        assert(keyed@ =~= project@ + "::"@ + query@);
        text::lemma_encode_concat(project@ + "::"@, query@);
        text::lemma_encode_concat(project@, "::"@);
    }
    blake3_hash(keyed.as_str().as_bytes())
}

/// The bytes, each as two hexadecimal digits.
pub open spec fn hex(bytes: Seq<u8>) -> Seq<char>
    decreases bytes.len(),
{
    if bytes.len() == 0 {
        seq![]
    } else {
        hex(bytes.drop_last()).push(text::hex_char((bytes.last() / 16) as nat)).push(
            text::hex_char((bytes.last() % 16) as nat),
        )
    }
}

pub fn hash_to_hex(hash: &[u8; 32]) -> (r: String)
    ensures
        r@ == hex(hash@),
{
    let mut out = String::new();
    let mut i: usize = 0;
    assert(hash@.take(0) =~= seq![]);
    assert(out@ =~= hex(hash@.take(0)));
    while i < 32
        invariant
            i <= 32,
            hash@.len() == 32,
            out@ == hex(hash@.take(i as int)),
        decreases 32 - i,
    {
        assert(hash@.take(i + 1).drop_last() =~= hash@.take(i as int));
        let byte: u8 = hash[i];
        out.push(hex_digit(byte / 16));
        out.push(hex_digit(byte % 16));
        i += 1;
    }
    assert(hash@.take(i as int) =~= hash@);
    out
}

/// Why a written hash cannot be read.
#[derive(Debug, Clone, Copy, PartialEq, Eq, Structural)]
pub enum HashError {
    /// It has not the length of a hash.
    InvalidLength(usize),
    /// The byte of this number is not written in hexadecimal.
    InvalidByte(usize),
}

/// The value of a hexadecimal digit, in either case.
pub open spec fn nibble(byte: u8) -> Option<u8> {
    if 48 <= byte <= 57 {
        Some((byte - 48) as u8)
    } else if 97 <= byte <= 102 {
        Some((byte - 87) as u8)
    } else if 65 <= byte <= 70 {
        Some((byte - 55) as u8)
    } else {
        None
    }
}

/// What two characters say: two digits, or a plus sign and a digit.
pub open spec fn hex_pair(high: u8, low: u8) -> Option<u8> {
    match (nibble(high), nibble(low)) {
        (Some(h), Some(l)) => Some((16 * h + l) as u8),
        (None, Some(l)) => if high == 43 {
            Some(l)
        } else {
            None
        },
        _ => None,
    }
}

fn read_nibble(byte: u8) -> (r: Option<u8>)
    ensures
        r == nibble(byte),
        r matches Some(n) ==> n < 16,
{
    if 48 <= byte && byte <= 57 {
        Some(byte - 48)
    } else if 97 <= byte && byte <= 102 {
        Some(byte - 87)
    } else if 65 <= byte && byte <= 70 {
        Some(byte - 55)
    } else {
        None
    }
}

/// The first of the bytes that cannot be read, or their number.
pub open spec fn first_unreadable(bytes: Seq<u8>, from: int) -> int
    decreases 32 - from,
{
    if from >= 32 || hex_pair(bytes[2 * from], bytes[2 * from + 1]) is None {
        from
    } else {
        first_unreadable(bytes, from + 1)
    }
}

/// No character reaches over from one byte of a written hash to the next.
pub open spec fn pairs_are_whole(bytes: Seq<u8>) -> bool {
    forall|i: int| 0 <= i <= 32 ==> #[trigger] vstd::utf8::is_char_boundary(bytes, 2 * i)
}

/// Reads a hash that was written in hexadecimal.
pub fn hex_to_hash(written: &str) -> (r: Result<[u8; 32], HashError>)
    requires
        vstd::utf8::encode_utf8(written@).len() == 64 ==> pairs_are_whole(
            vstd::utf8::encode_utf8(written@),
        ),
    ensures
        ({
            let bytes = vstd::utf8::encode_utf8(written@);
            match r {
                Ok(hash) => bytes.len() == 64 && first_unreadable(bytes, 0) == 32 && forall|i: int|
                    0 <= i < 32 ==> Some(#[trigger] hash@[i]) == hex_pair(
                        bytes[2 * i],
                        bytes[2 * i + 1],
                    ),
                Err(HashError::InvalidLength(n)) => n == bytes.len() && n != 64,
                Err(HashError::InvalidByte(i)) => bytes.len() == 64 && i == first_unreadable(
                    bytes,
                    0,
                ) && i < 32,
            }
        }),
{
    let bytes = written.as_bytes();
    if bytes.len() != 64 {
        return Err(HashError::InvalidLength(bytes.len()));
    }
    let mut hash: [u8; 32] = [0u8;32];
    let mut i: usize = 0;
    while i < 32
        invariant
            i <= 32,
            bytes@ == vstd::utf8::encode_utf8(written@),
            bytes@.len() == 64,
            hash@.len() == 32,
            first_unreadable(bytes@, 0) == first_unreadable(bytes@, i as int),
            forall|j: int|
                0 <= j < i ==> Some(#[trigger] hash@[j]) == hex_pair(
                    bytes@[2 * j],
                    bytes@[2 * j + 1],
                ),
        decreases 32 - i,
    {
        let high: u8 = bytes[2 * i];
        let low: u8 = bytes[2 * i + 1];
        let byte: u8 = match (read_nibble(high), read_nibble(low)) {
            (Some(h), Some(l)) => 16 * h + l,
            (None, Some(l)) => {
                if high == 43 {
                    l
                } else {
                    return Err(HashError::InvalidByte(i));
                }
            },
            _ => {
                return Err(HashError::InvalidByte(i));
            },
        };
        hash[i] = byte;
        i += 1;
    }
    Ok(hash)
}

proof fn lemma_hex_chars(bytes: Seq<u8>, i: int)
    requires
        0 <= i < bytes.len(),
    ensures
        hex(bytes).len() == 2 * bytes.len(),
        hex(bytes)[2 * i] == text::hex_char((bytes[i] / 16) as nat),
        hex(bytes)[2 * i + 1] == text::hex_char((bytes[i] % 16) as nat),
    decreases bytes.len(),
{
    let d = bytes.drop_last();
    lemma_hex_ascii(d);
    if d.len() > 0 {
        lemma_hex_chars(
            d,
            if i < d.len() {
                i
            } else {
                0
            },
        );
    }
}

proof fn lemma_hex_ascii(bytes: Seq<u8>)
    ensures
        hex(bytes).len() == 2 * bytes.len(),
        vstd::utf8::is_ascii_chars(hex(bytes)),
    decreases bytes.len(),
{
    if bytes.len() > 0 {
        lemma_hex_ascii(bytes.drop_last());
    }
}

proof fn lemma_nibble_of_digit(d: nat)
    requires
        d < 16,
    ensures
        nibble(text::hex_char(d) as u8) == Some(d as u8),
        text::hex_char(d) as u8 != 43,
{
}

proof fn lemma_all_readable(bytes: Seq<u8>, from: int)
    requires
        0 <= from <= 32,
        forall|i: int|
            from <= i < 32 ==> hex_pair(#[trigger] bytes[2 * i], bytes[2 * i + 1]) is Some,
    ensures
        first_unreadable(bytes, from) == 32,
    decreases 32 - from,
{
    if from < 32 {
        assert(hex_pair(bytes[2 * from], bytes[2 * from + 1]) is Some);
        lemma_all_readable(bytes, from + 1);
    }
}

/// A hash that was written is read back, byte for byte: the written form has the right length, no
/// byte of it is unreadable, and each says what the hash has there.
pub proof fn law_written_hashes_are_read_back(hash: Seq<u8>)
    requires
        hash.len() == 32,
    ensures
        ({
            let bytes = vstd::utf8::encode_utf8(hex(hash));
            &&& bytes.len() == 64
            &&& pairs_are_whole(bytes)
            &&& first_unreadable(bytes, 0) == 32
            &&& forall|i: int|
                0 <= i < 32 ==> hex_pair(#[trigger] bytes[2 * i], bytes[2 * i + 1]) == Some(hash[i])
        }),
{
    let chars = hex(hash);
    lemma_hex_ascii(hash);
    vstd::utf8::is_ascii_chars_encode_utf8(chars);
    let bytes = vstd::utf8::encode_utf8(chars);
    assert forall|i: int| 0 <= i < 32 implies hex_pair(
        #[trigger] bytes[2 * i],
        bytes[2 * i + 1],
    ) == Some(hash[i]) by {
        lemma_hex_chars(hash, i);
        lemma_nibble_of_digit((hash[i] / 16) as nat);
        lemma_nibble_of_digit((hash[i] % 16) as nat);
        assert(bytes[2 * i] == chars[2 * i] as u8);
        assert(bytes[2 * i + 1] == chars[2 * i + 1] as u8);
    }
    lemma_all_readable(bytes, 0);
    vstd::utf8::encode_utf8_valid_utf8(chars);
    assert forall|i: int| 0 <= i <= 32 implies #[trigger] vstd::utf8::is_char_boundary(
        bytes,
        2 * i,
    ) by {
        vstd::utf8::is_char_boundary_start_end_of_seq(bytes);
        if i < 32 {
            vstd::utf8::is_char_boundary_iff_not_is_continuation_byte(bytes, 2 * i);
            lemma_hex_chars(hash, i);
        }
    }
}

/// Hashing goes on from where it stands: of two stretches of bytes first the one, then the other.
pub proof fn law_hashing_goes_on(hash: u64, a: Seq<u8>, b: Seq<u8>)
    ensures
        fnv(hash, Seq::<u8>::empty()) == hash,
        fnv(hash, a + b) == fnv(fnv(hash, a), b),
    decreases b.len(),
{
    if b.len() == 0 {
        assert(a + b =~= a);
    } else {
        assert((a + b).drop_last() =~= a + b.drop_last());
        law_hashing_goes_on(hash, a, b.drop_last());
    }
}

/// The parts of an identity are hashed in order, each with a byte behind it that no text has.
pub proof fn law_parts_are_hashed_in_order(parts: Seq<Seq<char>>, part: Seq<char>)
    ensures
        fnv_parts(Seq::<Seq<char>>::empty()) == 0xcbf29ce484222325u64,
        fnv_parts(parts.push(part)) == fnv(
            fnv_parts(parts),
            vstd::utf8::encode_utf8(part) + seq![0xffu8],
        ),
{
    assert(parts.push(part).drop_last() =~= parts);
    let bytes = vstd::utf8::encode_utf8(part);
    assert((bytes + seq![0xffu8]).drop_last() =~= bytes);
}

/// Each byte is written with two digits, the higher half first.
pub proof fn law_bytes_are_written_with_two_digits(bytes: Seq<u8>, byte: u8)
    ensures
        hex(bytes).len() == 2 * bytes.len(),
        hex(bytes.push(byte)) == hex(bytes).push(text::hex_char((byte / 16) as nat)).push(
            text::hex_char((byte % 16) as nat),
        ),
    decreases bytes.len(),
{
    assert(bytes.push(byte).drop_last() =~= bytes);
    if bytes.len() > 0 {
        law_bytes_are_written_with_two_digits(bytes.drop_last(), bytes.last());
    }
}

/// The byte that is told is the first that cannot be read.
pub proof fn law_the_first_unreadable_byte_is_told(bytes: Seq<u8>, from: int)
    requires
        0 <= from <= 32,
    ensures
        from <= first_unreadable(bytes, from) <= 32,
        first_unreadable(bytes, from) < 32 ==> hex_pair(
            bytes[2 * first_unreadable(bytes, from)],
            bytes[2 * first_unreadable(bytes, from) + 1],
        ) is None,
        forall|i: int|
            from <= i < first_unreadable(bytes, from) ==> hex_pair(
                #[trigger] bytes[2 * i],
                bytes[2 * i + 1],
            ) is Some,
    decreases 32 - from,
{
    if from < 32 && hex_pair(bytes[2 * from], bytes[2 * from + 1]) is Some {
        law_the_first_unreadable_byte_is_told(bytes, from + 1);
        assert forall|i: int| from <= i < first_unreadable(bytes, from) implies hex_pair(
            #[trigger] bytes[2 * i],
            bytes[2 * i + 1],
        ) is Some by {
            if i > from {
                assert(bytes[2 * i] == bytes[2 * i]);
            }
        }
    }
}

/// A byte is read from two digits, of which the first may be a plus sign in place of a zero, and
/// from nothing else; capital digits say the same as small ones.
pub proof fn law_bytes_are_read_from_two_digits(high: u8, low: u8)
    ensures
        hex_pair(high, low) is Some ==> nibble(low) is Some && (nibble(high) is Some || high == 43),
        nibble(high) is Some && nibble(low) is Some ==> hex_pair(high, low) is Some
            && hex_pair(high, low)->0 == 16 * nibble(high)->0 + nibble(low)->0,
        nibble(low) is Some ==> hex_pair(43, low) == hex_pair(48, low),
        hex_pair(high, low) is Some && nibble(high) is None ==> high == 43,
        65 <= low <= 70 ==> nibble(low) == nibble((low + 32) as u8),
        nibble(low) matches Some(n) ==> n < 16,
{
}

} // verus!
