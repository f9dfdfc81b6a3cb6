//! The checksum over the events of a bundle.
use crate::json::{compact_bytes, write_compact};
use vstd::prelude::*;

verus! {

/// The 32 bytes that SHA-256 gives for a message.
pub uninterp spec fn sha256_of(message: Seq<u8>) -> Seq<u8>;

/// `sha2::Sha256::digest`: the SHA-256 digest of a message, 32 bytes.
#[verifier::external_body]
fn sha256(message: &[u8]) -> (r: Vec<u8>)
    ensures
        r@ == sha256_of(message@),
        r@.len() == 32,
{
    <sha2::Sha256 as sha2::Digest>::digest(message).to_vec()
}

/// The lower-case hexadecimal digit of a number below sixteen.
pub open spec fn hex_digit(n: nat) -> char {
    if n < 10 {
        (48 + n) as char
    } else {
        (87 + n) as char
    }
}

/// Two hexadecimal digits for each byte.
pub open spec fn hex_text(bytes: Seq<u8>) -> Seq<char>
    decreases bytes.len(),
{
    if bytes.len() == 0 {
        Seq::empty()
    } else {
        hex_text(bytes.drop_last()) + seq![
            hex_digit((bytes.last() / 16) as nat),
            hex_digit((bytes.last() % 16) as nat),
        ]
    }
}

/// `hex::encode`: two lower-case hexadecimal digits for each byte, the high one first.
#[verifier::external_body]
fn hex_encode(bytes: &[u8]) -> (r: String)
    ensures
        r@ == hex_text(bytes@),
{
    hex::encode(bytes)
}

/// What the checksum is taken over: each event without white space, and a line feed behind it.
pub open spec fn checksum_message(events: Seq<serde_json::Value>) -> Seq<u8>
    decreases events.len(),
{
    if events.len() == 0 {
        Seq::empty()
    } else {
        checksum_message(events.drop_last()) + compact_bytes(events.last()).push(10u8)
    }
}

/// The checksum of events, as text.
pub open spec fn checksum_of(events: Seq<serde_json::Value>) -> Seq<char> {
    hex_text(sha256_of(checksum_message(events)))
}

/// The checksum of events.
pub fn checksum(events: &Vec<serde_json::Value>) -> (r: String)
    ensures
        r@ == checksum_of(events@),
{
    let mut message: Vec<u8> = Vec::new();
    assert(events@.take(0) =~= Seq::<serde_json::Value>::empty());
    for i in 0..events.len()
        invariant
            message@ == checksum_message(events@.take(i as int)),
    {
        assert(events@.take(i + 1).drop_last() =~= events@.take(i as int));
        let ghost before = message@;
        let mut bytes = write_compact(&events[i]);
        bytes.push(10u8);
        let ghost added = bytes@;
        message.append(&mut bytes);
        assert(message@ =~= before + added);
    }
    assert(events@.take(events@.len() as int) =~= events@);
    let digest = sha256(message.as_slice());
    hex_encode(digest.as_slice())
}

/// A checksum is taken over every event: one more adds its own bytes and a line feed behind all that
/// came before.
pub proof fn checksums_cover_every_event(
    events: Seq<serde_json::Value>,
    event: serde_json::Value,
)
    ensures
        checksum_message(events.push(event)) == checksum_message(events) + compact_bytes(event)
            + seq![10u8],
        checksum_message(Seq::empty()) == Seq::<u8>::empty(),
{
    assert(events.push(event).drop_last() =~= events);
    assert(checksum_message(events) + compact_bytes(event).push(10u8) =~= checksum_message(events)
        + compact_bytes(event) + seq![10u8]);
}

} // verus!
