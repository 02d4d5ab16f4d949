//! Fingerprints of query descriptors: the cache's keys.
//!
//! A descriptor is a command name followed by its ordered arguments. Its
//! fingerprint is the SHA-256 digest of the command's bytes and the bytes of
//! each argument in order, each argument after a separator byte that no text
//! holds, written as 64 lower-case hexadecimal digits. Different descriptors
//! are hashed from different bytes, so two of them share a fingerprint only
//! where SHA-256 collides.

use sha2::{Digest, Sha256};
use vstd::prelude::*;
use vstd::utf8::{encode_scalar, encode_utf8, encode_utf8_decode_utf8};

verus! {

/// The SHA-256 digest of `data`.
pub uninterp spec fn sha256(data: Seq<u8>) -> Seq<u8>;

/// Calls `sha2::Sha256::digest`, which hashes the whole of `data` in one go.
///
/// The contract gives the digest its name, which claims that equal data has
/// equal digests, and states its length: SHA-256 puts out 32 bytes.
#[verifier::external_body]
fn sha256_digest(data: &[u8]) -> (digest: Vec<u8>)
    ensures
        digest@ == sha256(data@),
        digest@.len() == 32,
{
    Sha256::digest(data).to_vec()
}

/// The lower-case hexadecimal digit of a value below 16.
pub open spec fn hex_digit(nibble: int) -> char {
    if nibble < 10 {
        ((48 + nibble) as u8) as char
    } else {
        ((87 + nibble) as u8) as char
    }
}

/// The two hexadecimal digits of a byte, the high half first.
pub open spec fn hex_pair(byte: u8) -> Seq<char> {
    seq![hex_digit(byte as int / 16), hex_digit(byte as int % 16)]
}

/// The bytes written as lower-case hexadecimal digits, two for each byte.
pub open spec fn lower_hex(bytes: Seq<u8>) -> Seq<char>
    decreases bytes.len(),
{
    if bytes.len() == 0 {
        Seq::empty()
    } else {
        lower_hex(bytes.drop_last()) + hex_pair(bytes.last())
    }
}

/// The views of a sequence of strings.
pub open spec fn texts(strings: Seq<String>) -> Seq<Seq<char>> {
    strings.map_values(|s: String| s@)
}

/// The byte that stands before each argument of a descriptor. No UTF-8 text
/// holds it, so it marks where one part ends and the next begins.
pub const SEPARATOR: u8 = 0xFF;

/// The bytes that a descriptor is hashed from: the command's UTF-8 bytes,
/// then for each argument in order the separator and the argument's UTF-8
/// bytes.
pub open spec fn descriptor_bytes(command: Seq<char>, params: Seq<Seq<char>>) -> Seq<u8>
    decreases params.len(),
{
    if params.len() == 0 {
        encode_utf8(command)
    } else {
        descriptor_bytes(command, params.drop_last()) + seq![SEPARATOR] + encode_utf8(
            params.last(),
        )
    }
}

/// The fingerprint of a descriptor.
pub open spec fn fingerprint_of(command: Seq<char>, params: Seq<Seq<char>>) -> Seq<char> {
    lower_hex(sha256(descriptor_bytes(command, params)))
}

/// The text of one hexadecimal digit.
fn hex_digit_text(nibble: u8) -> (text: &'static str)
    requires
        nibble < 16,
    ensures
        text@ == seq![hex_digit(nibble as int)],
{
    let digits = "0123456789abcdef";
    proof {
        reveal_strlit("0123456789abcdef");
    }
    let at = nibble as usize;
    let text = digits.substring_ascii(at, at + 1);
    assert(digits@[at as int] == hex_digit(nibble as int));
    assert(text@ =~= seq![hex_digit(nibble as int)]);
    text
}

/// Writes bytes as lower-case hexadecimal digits.
pub fn to_lower_hex(bytes: &[u8]) -> (text: String)
    ensures
        text@ == lower_hex(bytes@),
{
    let mut text = String::new();
    let mut i: usize = 0;
    while i < bytes.len()
        invariant
            i <= bytes@.len(),
            text@ == lower_hex(bytes@.take(i as int)),
        decreases bytes@.len() - i,
    {
        let byte = bytes[i];
        proof {
            let upto = bytes@.take(i + 1);
            assert(upto.drop_last() == bytes@.take(i as int));
            assert(upto.last() == byte);
        }
        text.append(hex_digit_text(byte / 16));
        text.append(hex_digit_text(byte % 16));
        assert(text@ =~= lower_hex(bytes@.take(i as int)) + hex_pair(byte));
        i += 1;
    }
    assert(bytes@.take(bytes@.len() as int) == bytes@);
    text
}

/// The length of a hexadecimal text is twice the number of bytes.
pub proof fn lemma_lower_hex_len(bytes: Seq<u8>)
    ensures
        lower_hex(bytes).len() == 2 * bytes.len(),
    decreases bytes.len(),
{
    if bytes.len() > 0 {
        lemma_lower_hex_len(bytes.drop_last());
    }
}

/// Two values below 16 with the same hexadecimal digit are equal.
proof fn lemma_hex_digit_injective(a: int, b: int)
    requires
        0 <= a < 16,
        0 <= b < 16,
        hex_digit(a) == hex_digit(b),
    ensures
        a == b,
{
    let code_a: u8 = if a < 10 { (48 + a) as u8 } else { (87 + a) as u8 };
    let code_b: u8 = if b < 10 { (48 + b) as u8 } else { (87 + b) as u8 };
    assert((code_a as char) as u8 == code_a);
    assert((code_b as char) as u8 == code_b);
}

/// Different byte strings have different hexadecimal texts.
pub proof fn lemma_lower_hex_injective(a: Seq<u8>, b: Seq<u8>)
    requires
        lower_hex(a) == lower_hex(b),
    ensures
        a == b,
    decreases a.len(),
{
    lemma_lower_hex_len(a);
    lemma_lower_hex_len(b);
    if a.len() == 0 {
        assert(a =~= b);
    } else {
        let front_a = lower_hex(a.drop_last());
        let front_b = lower_hex(b.drop_last());
        lemma_lower_hex_len(a.drop_last());
        lemma_lower_hex_len(b.drop_last());
        let whole = lower_hex(a);
        assert(whole == front_a + hex_pair(a.last()));
        assert(whole == front_b + hex_pair(b.last()));
        assert forall|i: int| 0 <= i < front_a.len() implies front_a[i] == front_b[i] by {
            assert((front_a + hex_pair(a.last()))[i] == front_a[i]);
            assert((front_b + hex_pair(b.last()))[i] == front_b[i]);
        }
        assert(front_a =~= front_b);
        lemma_lower_hex_injective(a.drop_last(), b.drop_last());
        let n = front_a.len() as int;
        assert(whole[n] == hex_pair(a.last())[0] && whole[n] == hex_pair(b.last())[0]);
        assert(whole[n + 1] == hex_pair(a.last())[1] && whole[n + 1] == hex_pair(b.last())[1]);
        lemma_hex_digit_injective(a.last() as int / 16, b.last() as int / 16);
        lemma_hex_digit_injective(a.last() as int % 16, b.last() as int % 16);
        assert(a.last() == b.last());
        assert(a =~= a.drop_last().push(a.last()));
        assert(b =~= b.drop_last().push(b.last()));
    }
}

/// Equal descriptors have equal fingerprints: a fingerprint is a function of
/// the command and the ordered arguments, and of nothing else.
pub proof fn law_fingerprint_is_deterministic(
    command_a: Seq<char>,
    params_a: Seq<Seq<char>>,
    command_b: Seq<char>,
    params_b: Seq<Seq<char>>,
)
    requires
        command_a == command_b,
        params_a == params_b,
    ensures
        fingerprint_of(command_a, params_a) == fingerprint_of(command_b, params_b),
{
}

/// No byte of the UTF-8 encoding of a scalar value is the separator.
proof fn lemma_scalar_bytes_are_below_separator(scalar: u32)
    by (bit_vector)
    ensures
        (scalar & 0x7F) as u8 != 0xFFu8,
        0xC0u8 | ((scalar >> 6) & 0x1F) as u8 != 0xFFu8,
        0xE0u8 | ((scalar >> 12) & 0x0F) as u8 != 0xFFu8,
        0xF0u8 | ((scalar >> 18) & 0x7) as u8 != 0xFFu8,
        0x80u8 | (scalar & 0x3F) as u8 != 0xFFu8,
        0x80u8 | ((scalar >> 6) & 0x3F) as u8 != 0xFFu8,
        0x80u8 | ((scalar >> 12) & 0x3F) as u8 != 0xFFu8,
{
}

/// No UTF-8 text holds the separator.
pub proof fn lemma_text_holds_no_separator(text: Seq<char>)
    ensures
        forall|i: int| 0 <= i < encode_utf8(text).len() ==> encode_utf8(text)[i] != SEPARATOR,
    decreases text.len(),
{
    if text.len() > 0 {
        let first = encode_scalar(text[0] as u32);
        let rest = encode_utf8(text.drop_first());
        lemma_scalar_bytes_are_below_separator(text[0] as u32);
        lemma_text_holds_no_separator(text.drop_first());
        assert forall|i: int| 0 <= i < encode_utf8(text).len() implies encode_utf8(text)[i]
            != SEPARATOR by {
            if i < first.len() {
                assert(encode_utf8(text)[i] == first[i]);
            } else {
                assert(encode_utf8(text)[i] == rest[i - first.len()]);
            }
        }
    }
}

/// Different texts have different UTF-8 bytes.
pub proof fn lemma_text_bytes_are_injective(a: Seq<char>, b: Seq<char>)
    requires
        encode_utf8(a) == encode_utf8(b),
    ensures
        a == b,
{
    encode_utf8_decode_utf8(a);
    encode_utf8_decode_utf8(b);
}

/// Bytes that end in a separator and a text are cut in one way only.
proof fn lemma_last_part_is_unique(
    front_a: Seq<u8>,
    text_a: Seq<char>,
    front_b: Seq<u8>,
    text_b: Seq<char>,
)
    requires
        front_a + seq![SEPARATOR] + encode_utf8(text_a) == front_b + seq![SEPARATOR] + encode_utf8(
            text_b,
        ),
    ensures
        front_a == front_b,
        text_a == text_b,
{
    let tail_a = encode_utf8(text_a);
    let tail_b = encode_utf8(text_b);
    let whole = front_a + seq![SEPARATOR] + tail_a;
    let other = front_b + seq![SEPARATOR] + tail_b;
    lemma_text_holds_no_separator(text_a);
    lemma_text_holds_no_separator(text_b);
    assert(whole.len() == front_a.len() + 1 + tail_a.len());
    assert(other.len() == front_b.len() + 1 + tail_b.len());
    if front_a.len() < front_b.len() {
        let at = front_b.len() as int;
        assert(other[at] == SEPARATOR);
        assert(whole[at] == tail_a[at - front_a.len() - 1]);
    } else if front_b.len() < front_a.len() {
        let at = front_a.len() as int;
        assert(whole[at] == SEPARATOR);
        assert(other[at] == tail_b[at - front_b.len() - 1]);
    }
    assert(front_a.len() == front_b.len());
    assert forall|i: int| 0 <= i < front_a.len() implies front_a[i] == front_b[i] by {
        assert(whole[i] == front_a[i]);
        assert(other[i] == front_b[i]);
    }
    assert(front_a =~= front_b);
    assert forall|i: int| 0 <= i < tail_a.len() implies tail_a[i] == tail_b[i] by {
        assert(whole[front_a.len() + 1 + i] == tail_a[i]);
        assert(other[front_b.len() + 1 + i] == tail_b[i]);
    }
    assert(tail_a =~= tail_b);
    lemma_text_bytes_are_injective(text_a, text_b);
}

/// Different descriptors are hashed from different bytes: the bytes tell the
/// command, the number of arguments, and each argument in its place.
pub proof fn law_descriptor_bytes_are_injective(
    command_a: Seq<char>,
    params_a: Seq<Seq<char>>,
    command_b: Seq<char>,
    params_b: Seq<Seq<char>>,
)
    requires
        descriptor_bytes(command_a, params_a) == descriptor_bytes(command_b, params_b),
    ensures
        command_a == command_b,
        params_a == params_b,
    decreases params_a.len(),
{
    if params_a.len() == 0 && params_b.len() == 0 {
        lemma_text_bytes_are_injective(command_a, command_b);
        assert(params_a =~= params_b);
    } else if params_a.len() == 0 {
        let front = descriptor_bytes(command_b, params_b.drop_last());
        lemma_text_holds_no_separator(command_a);
        assert(descriptor_bytes(command_b, params_b)[front.len() as int] == SEPARATOR);
    } else if params_b.len() == 0 {
        let front = descriptor_bytes(command_a, params_a.drop_last());
        lemma_text_holds_no_separator(command_b);
        assert(descriptor_bytes(command_a, params_a)[front.len() as int] == SEPARATOR);
    } else {
        lemma_last_part_is_unique(
            descriptor_bytes(command_a, params_a.drop_last()),
            params_a.last(),
            descriptor_bytes(command_b, params_b.drop_last()),
            params_b.last(),
        );
        law_descriptor_bytes_are_injective(
            command_a,
            params_a.drop_last(),
            command_b,
            params_b.drop_last(),
        );
        assert(params_a =~= params_a.drop_last().push(params_a.last()));
        assert(params_b =~= params_b.drop_last().push(params_b.last()));
    }
}

/// Two descriptors share a fingerprint only if they are the same descriptor,
/// or if SHA-256 gives one digest to the different bytes that they are
/// hashed from: neither laying out the descriptor as bytes nor writing the
/// digest in hexadecimal loses anything.
pub proof fn law_fingerprints_collide_only_with_digests(
    command_a: Seq<char>,
    params_a: Seq<Seq<char>>,
    command_b: Seq<char>,
    params_b: Seq<Seq<char>>,
)
    requires
        fingerprint_of(command_a, params_a) == fingerprint_of(command_b, params_b),
    ensures
        (command_a == command_b && params_a == params_b) || (descriptor_bytes(command_a, params_a)
            != descriptor_bytes(command_b, params_b) && sha256(
            descriptor_bytes(command_a, params_a),
        ) == sha256(descriptor_bytes(command_b, params_b))),
{
    lemma_lower_hex_injective(
        sha256(descriptor_bytes(command_a, params_a)),
        sha256(descriptor_bytes(command_b, params_b)),
    );
    if descriptor_bytes(command_a, params_a) == descriptor_bytes(command_b, params_b) {
        law_descriptor_bytes_are_injective(command_a, params_a, command_b, params_b);
    }
}

/// Computes the fingerprint of the descriptor made of `command` and `params`.
pub fn fingerprint(command: &str, params: &[String]) -> (key: String)
    ensures
        key@ == fingerprint_of(command@, texts(params@)),
        key@.len() == 64,
{
    let mut bytes = command.as_bytes_vec();
    let mut i: usize = 0;
    assert(texts(params@).take(0).len() == 0);
    while i < params.len()
        invariant
            i <= params@.len(),
            bytes@ == descriptor_bytes(command@, texts(params@).take(i as int)),
        decreases params@.len() - i,
    {
        let mut more = params[i].as_str().as_bytes_vec();
        let ghost before = bytes@;
        proof {
            let upto = texts(params@).take(i + 1);
            assert(upto.drop_last() == texts(params@).take(i as int));
            assert(upto.last() == params@[i as int]@);
        }
        bytes.push(SEPARATOR);
        bytes.append(&mut more);
        assert(bytes@ =~= before + seq![SEPARATOR] + encode_utf8(params@[i as int]@));
        i += 1;
    }
    assert(texts(params@).take(params@.len() as int) == texts(params@));
    let digest = sha256_digest(bytes.as_slice());
    proof {
        lemma_lower_hex_len(digest@);
    }
    to_lower_hex(digest.as_slice())
}

} // verus!
