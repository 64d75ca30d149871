//! The presence frame on the wire: a version, the words of a point and of a
//! colour, and a name.
use vstd::arithmetic::power2::lemma_pow2_adds;
use vstd::arithmetic::power2::lemma_pow2_strictly_increases;
use vstd::arithmetic::power2::lemma2_to64;
use vstd::arithmetic::power2::pow2;
use vstd::prelude::*;
use vstd::utf8::decode_utf8;
use vstd::utf8::encode_utf8;
use vstd::utf8::encode_utf8_decode_utf8;
use vstd::utf8::encode_utf8_valid_utf8;
use vstd::utf8::valid_utf8;

verus! {

/// The error that `postcard` reports.
#[verifier::external_type_specification]
#[verifier::external_body]
pub struct ExPostcardError(postcard::Error);

/// A number in groups of seven bits, the lowest group first; the high bit marks
/// that another group follows.
pub open spec fn varint(n: nat) -> Seq<u8>
    decreases n,
{
    if n < 128 {
        seq![n as u8]
    } else {
        seq![(n % 128 + 128) as u8] + varint(n / 128)
    }
}

/// How many groups a number of `bits` bits has at most.
pub open spec fn most_groups(bits: nat) -> nat {
    (bits + 6) / 7
}

/// Reads a number of at most `bits` bits, of which `used` groups went before:
/// the number, and the bytes behind it. The last possible group holds only the
/// bits that are left for it.
pub open spec fn varint_read(bytes: Seq<u8>, used: nat, bits: nat) -> Option<(nat, Seq<u8>)>
    decreases bytes.len(),
{
    if bytes.len() == 0 || used >= most_groups(bits) {
        None
    } else if bytes[0] < 128 {
        if used + 1 == most_groups(bits) && bytes[0] >= pow2(bits % 7) {
            None
        } else {
            Some((bytes[0] as nat, bytes.skip(1)))
        }
    } else {
        match varint_read(bytes.skip(1), used + 1, bits) {
            Some((high, rest)) => Some(((bytes[0] - 128) as nat + 128 * high, rest)),
            None => None,
        }
    }
}

/// The four bytes of a word, lowest first.
pub open spec fn word_bytes(w: u32) -> Seq<u8> {
    seq![
        (w % 256) as u8,
        (w / 256 % 256) as u8,
        (w / 65536 % 256) as u8,
        (w / 16777216) as u8,
    ]
}

/// The word that four bytes spell, lowest first.
pub open spec fn word_read(b: Seq<u8>) -> u32 {
    (b[0] + 256 * b[1] + 65536 * b[2] + 16777216 * b[3]) as u32
}

/// The bytes of several words, one after the other.
pub open spec fn words_bytes(words: Seq<u32>) -> Seq<u8>
    decreases words.len(),
{
    if words.len() == 0 {
        Seq::empty()
    } else {
        word_bytes(words[0]) + words_bytes(words.skip(1))
    }
}

/// The `count` words that the bytes spell.
pub open spec fn words_read(bytes: Seq<u8>, count: nat) -> Seq<u32> {
    Seq::new(count, |i: int| word_read(bytes.subrange(4 * i, 4 * i + 4)))
}

/// A frame as bytes: the version as a number in groups, the words, and the name
/// as UTF-8 behind its length.
pub open spec fn frame_bytes(version: u16, words: Seq<u32>, name: Seq<char>) -> Seq<u8> {
    varint(version as nat) + words_bytes(words) + varint(encode_utf8(name).len()) + encode_utf8(
        name,
    )
}

/// The name at the head of `bytes`: its length, then as many bytes of UTF-8.
/// Bytes behind it do not matter.
pub open spec fn name_read(bytes: Seq<u8>) -> Option<Seq<char>> {
    match varint_read(bytes, 0, usize::BITS as nat) {
        Some((len, rest)) => if len <= rest.len() && valid_utf8(rest.take(len as int)) {
            Some(decode_utf8(rest.take(len as int)))
        } else {
            None
        },
        None => None,
    }
}

/// The version at the head of `bytes`, where one stands there.
pub open spec fn version_read(bytes: Seq<u8>) -> Option<u16> {
    match varint_read(bytes, 0, 16) {
        Some((version, rest)) => Some(version as u16),
        None => None,
    }
}

/// The frame with `count` words at the head of `bytes`, where one stands there.
pub open spec fn frame_read(bytes: Seq<u8>, count: nat) -> Option<(u16, Seq<u32>, Seq<char>)> {
    match varint_read(bytes, 0, 16) {
        Some((version, rest)) => if 4 * count <= rest.len() {
            match name_read(rest.skip(4 * count as int)) {
                Some(name) => Some((version as u16, words_read(rest, count), name)),
                None => None,
            }
        } else {
            None
        },
        None => None,
    }
}

proof fn lemma_varint_step(n: nat, used: nat, bits: nat)
    requires
        n < pow2((bits - 7 * used) as nat),
        7 * used < bits,
    ensures
        used < most_groups(bits),
        n < 128 && used + 1 == most_groups(bits) ==> n < pow2(bits % 7) || bits % 7 == 0,
        n >= 128 ==> 7 * (used + 1) < bits && n / 128 < pow2((bits - 7 * (used + 1)) as nat),
{
    lemma2_to64();
    let left = (bits - 7 * used) as nat;
    if n < 128 && used + 1 == most_groups(bits) {
        if bits % 7 != 0 {
            assert(left == bits % 7);
        }
    }
    if n >= 128 {
        if left <= 7 {
            if left < 7 {
                lemma_pow2_strictly_increases(left, 7);
            }
            assert(false);
        }
        lemma_pow2_adds(7, (left - 7) as nat);
        let high = pow2((left - 7) as nat);
        assert(n < 128 * high);
        assert(n / 128 < high);
    }
}

/// Reading a number that was written gives it back, and the bytes behind it.
proof fn lemma_varint_round_trip(n: nat, rest: Seq<u8>, used: nat, bits: nat)
    requires
        bits % 7 != 0,
        7 * used < bits,
        n < pow2((bits - 7 * used) as nat),
    ensures
        varint_read(varint(n) + rest, used, bits) == Some((n, rest)),
    decreases n,
{
    lemma_varint_step(n, used, bits);
    let bytes = varint(n) + rest;
    if n < 128 {
        assert(bytes[0] == n);
        assert(bytes.skip(1) =~= rest);
    } else {
        assert(bytes[0] == n % 128 + 128);
        assert(bytes.skip(1) =~= varint(n / 128) + rest);
        lemma_varint_round_trip(n / 128, rest, used + 1, bits);
        assert(n == n % 128 + 128 * (n / 128));
    }
}

proof fn lemma_word_round_trip(w: u32)
    ensures
        word_read(word_bytes(w)) == w,
{
    let b = word_bytes(w);
    assert(b[0] + 256 * b[1] + 65536 * b[2] + 16777216 * b[3] == w);
}

proof fn lemma_words_round_trip(words: Seq<u32>, rest: Seq<u8>)
    ensures
        words_bytes(words).len() == 4 * words.len(),
        words_read(words_bytes(words) + rest, words.len()) == words,
    decreases words.len(),
{
    if words.len() > 0 {
        let tail = words.skip(1);
        lemma_words_round_trip(tail, rest);
        lemma_word_round_trip(words[0]);
        let bytes = words_bytes(words) + rest;
        assert(bytes.subrange(0, 4) =~= word_bytes(words[0]));
        assert forall|i: int| 0 < i < words.len() implies word_read(
            #[trigger] bytes.subrange(4 * i, 4 * i + 4),
        ) == words[i] by {
            let inner = words_bytes(tail) + rest;
            assert(bytes.subrange(4 * i, 4 * i + 4) =~= inner.subrange(
                4 * (i - 1),
                4 * (i - 1) + 4,
            ));
            assert(words_read(inner, tail.len())[i - 1] == tail[i - 1]);
        }
        assert forall|i: int| 0 <= i < words.len() implies words_read(bytes, words.len())[i]
            == words[i] by {
            if i == 0 {
                assert(bytes.subrange(4 * i, 4 * i + 4) =~= word_bytes(words[0]));
            }
        }
    }
    assert(words_read(words_bytes(words) + rest, words.len()) =~= words);
}

/// A version is read back from the head of any bytes that start with it.
pub proof fn version_round_trip(version: u16, rest: Seq<u8>)
    ensures
        version_read(varint(version as nat) + rest) == Some(version),
{
    lemma2_to64();
    lemma_varint_round_trip(version as nat, rest, 0, 16);
}

/// What is written as a frame is read back from the head of any bytes that
/// start with it. The name's length must fit the machine's word.
pub proof fn frame_round_trip(version: u16, words: Seq<u32>, name: Seq<char>, rest: Seq<u8>)
    requires
        encode_utf8(name).len() <= usize::MAX,
    ensures
        frame_read(frame_bytes(version, words, name) + rest, words.len()) == Some(
            (version, words, name),
        ),
{
    lemma2_to64();
    vstd::layout::unsigned_int_max_values();
    let text = encode_utf8(name);
    let named = varint(text.len()) + text + rest;
    let bytes = frame_bytes(version, words, name) + rest;
    assert(bytes =~= varint(version as nat) + (words_bytes(words) + named));
    lemma_varint_round_trip(version as nat, words_bytes(words) + named, 0, 16);
    lemma_words_round_trip(words, named);
    assert((words_bytes(words) + named).skip(4 * words.len() as int) =~= named);
    assert(named =~= varint(text.len()) + (text + rest));
    assert(usize::BITS == 32 || usize::BITS == 64);
    lemma_varint_round_trip(text.len(), text + rest, 0, usize::BITS as nat);
    assert((text + rest).take(text.len() as int) =~= text);
    encode_utf8_valid_utf8(name);
    encode_utf8_decode_utf8(name);
}

/// `postcard::to_allocvec` on a version, five words and a name. Writing into a
/// growing vector does not fail; what comes out is the frame's bytes.
#[verifier::external_body]
pub(crate) fn write_frame5(version: u16, words: [u32; 5], name: &str) -> (r: Result<Vec<u8>, postcard::Error>)
    ensures
        r is Ok,
        r->Ok_0@ == frame_bytes(version, words@, name@),
{
    postcard::to_allocvec(&(version, words.map(|w| w.to_le_bytes()), name))
}

/// `postcard::to_allocvec` on a version, six words and a name, as
/// [`write_frame5`].
#[verifier::external_body]
pub(crate) fn write_frame6(version: u16, words: [u32; 6], name: &str) -> (r: Result<Vec<u8>, postcard::Error>)
    ensures
        r is Ok,
        r->Ok_0@ == frame_bytes(version, words@, name@),
{
    postcard::to_allocvec(&(version, words.map(|w| w.to_le_bytes()), name))
}

/// `postcard::from_bytes` for a version alone: the one at the head of the bytes,
/// whatever follows it, or an error where none stands there.
#[verifier::external_body]
pub(crate) fn read_version(bytes: &[u8]) -> (r: Result<u16, postcard::Error>)
    ensures
        r is Ok <==> version_read(bytes@) is Some,
        r matches Ok(version) ==> version_read(bytes@) == Some(version),
{
    postcard::from_bytes(bytes)
}

/// `postcard::from_bytes` for a version, five words and a name: the frame at
/// the head of the bytes, or an error where none stands there.
#[verifier::external_body]
pub(crate) fn read_frame5(bytes: &[u8]) -> (r: Result<(u16, [u32; 5], String), postcard::Error>)
    ensures
        r is Ok <==> frame_read(bytes@, 5) is Some,
        r matches Ok(f) ==> frame_read(bytes@, 5) == Some((f.0, f.1@, f.2@)),
{
    let (version, words, name): (u16, [[u8; 4]; 5], String) = postcard::from_bytes(bytes)?;
    Ok((version, words.map(u32::from_le_bytes), name))
}

/// `postcard::from_bytes` for a version, six words and a name, as
/// [`read_frame5`].
#[verifier::external_body]
pub(crate) fn read_frame6(bytes: &[u8]) -> (r: Result<(u16, [u32; 6], String), postcard::Error>)
    ensures
        r is Ok <==> frame_read(bytes@, 6) is Some,
        r matches Ok(f) ==> frame_read(bytes@, 6) == Some((f.0, f.1@, f.2@)),
{
    let (version, words, name): (u16, [[u8; 4]; 6], String) = postcard::from_bytes(bytes)?;
    Ok((version, words.map(u32::from_le_bytes), name))
}

} // verus!
