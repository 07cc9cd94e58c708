//! The versioned envelope shared by every message: a four-byte brand naming the
//! message type, a major and a minor version, then the type's own payload.

use vstd::prelude::*;

verus! {

/// Why bytes could not be read as a message of the expected type.
#[derive(Debug, Clone, Copy, PartialEq, Eq, Structural)]
pub enum DeserializationError {
    /// Fewer bytes than the brand and the two versions take.
    TooShort,
    /// The brand names another message type.
    BrandMismatch,
    /// The major version is not the one this reader understands.
    MajorVersionMismatch { expected: u16, received: u16 },
    /// The minor version is newer than this reader understands.
    MinorVersionTooNew { supported: u16, received: u16 },
    /// The payload does not hold a value of the type.
    PayloadMalformed,
}

/// Big-endian bytes of a `u16`.
#[verifier::opaque]
pub open spec fn be16(x: u16) -> Seq<u8> {
    seq![((x >> 8u16) & 0xffu16) as u8, (x & 0xffu16) as u8]
}

/// The `u16` whose big-endian bytes are the first two of `s`.
#[verifier::opaque]
pub open spec fn from_be16(s: Seq<u8>) -> u16 {
    ((s[0] as u16) << 8u16) | (s[1] as u16)
}

pub proof fn lemma_be16_round_trip(x: u16)
    ensures
        be16(x).len() == 2,
        from_be16(be16(x)) == x,
{
    reveal(be16);
    reveal(from_be16);
    assert(((((x >> 8u16) & 0xffu16) as u8 as u16) << 8u16) | ((x & 0xffu16) as u8 as u16) == x)
        by (bit_vector);
}

/// The header that opens every message.
pub open spec fn header(brand: Seq<u8>, major: u16, minor: u16) -> Seq<u8> {
    brand + be16(major) + be16(minor)
}

/// A whole message: header, then payload.
pub open spec fn envelope(brand: Seq<u8>, major: u16, minor: u16, payload: Seq<u8>) -> Seq<u8> {
    header(brand, major, minor) + payload
}

/// What a reader of `brand`, at version `major.minor`, makes of `b`: the payload,
/// or why it refuses the bytes.
pub open spec fn open_envelope(b: Seq<u8>, brand: Seq<u8>, major: u16, minor: u16) -> Result<
    Seq<u8>,
    DeserializationError,
> {
    if b.len() < 8 {
        Err(DeserializationError::TooShort)
    } else if b.subrange(0, 4) != brand {
        Err(DeserializationError::BrandMismatch)
    } else if from_be16(b.subrange(4, 6)) != major {
        Err(
            DeserializationError::MajorVersionMismatch {
                expected: major,
                received: from_be16(b.subrange(4, 6)),
            },
        )
    } else if from_be16(b.subrange(6, 8)) > minor {
        Err(
            DeserializationError::MinorVersionTooNew {
                supported: minor,
                received: from_be16(b.subrange(6, 8)),
            },
        )
    } else {
        Ok(b.subrange(8, b.len() as int))
    }
}

fn push_be16(out: &mut Vec<u8>, x: u16)
    ensures
        final(out)@ == old(out)@ + be16(x),
{
    reveal(be16);
    out.push(((x >> 8u16) & 0xffu16) as u8);
    out.push((x & 0xffu16) as u8);
    assert(out@ =~= old(out)@ + be16(x));
}

fn read_be16(b: &[u8], pos: usize) -> (r: u16)
    requires
        pos + 2 <= b@.len(),
    ensures
        r == from_be16(b@.subrange(pos as int, pos + 2)),
{
    reveal(from_be16);
    ((b[pos] as u16) << 8u16) | (b[pos + 1] as u16)
}

/// Puts the header of `brand` at version `major.minor` before `payload`.
pub fn seal_envelope(brand: [u8; 4], major: u16, minor: u16, payload: &[u8]) -> (r: Vec<u8>)
    ensures
        r@ == envelope(brand@, major, minor, payload@),
{
    let mut out: Vec<u8> = Vec::new();
    out.push(brand[0]);
    out.push(brand[1]);
    out.push(brand[2]);
    out.push(brand[3]);
    assert(out@ =~= brand@);
    push_be16(&mut out, major);
    push_be16(&mut out, minor);
    let mut i: usize = 0;
    let ghost start = out@;
    while i < payload.len()
        invariant
            i <= payload@.len(),
            out@ == start + payload@.subrange(0, i as int),
        decreases payload@.len() - i,
    {
        out.push(payload[i]);
        i += 1;
        assert(out@ =~= start + payload@.subrange(0, i as int));
    }
    assert(payload@.subrange(0, payload@.len() as int) =~= payload@);
    out
}

/// Checks the header of `b` against `brand` and version `major.minor` and
/// returns the minor version that the message was written at and the payload
/// behind the header.
pub fn unseal_envelope(b: &[u8], brand: [u8; 4], major: u16, minor: u16) -> (r: Result<
    (u16, Vec<u8>),
    DeserializationError,
>)
    ensures
        match r {
            Ok((m, p)) => {
                &&& open_envelope(b@, brand@, major, minor) == Ok::<Seq<u8>, DeserializationError>(p@)
                &&& m <= minor
            },
            Err(e) => open_envelope(b@, brand@, major, minor) == Err::<Seq<u8>, DeserializationError>(e),
        },
{
    if b.len() < 8 {
        return Err(DeserializationError::TooShort);
    }
    if b[0] != brand[0] || b[1] != brand[1] || b[2] != brand[2] || b[3] != brand[3] {
        assert(b@.subrange(0, 4)[0] == b@[0]);
        assert(b@.subrange(0, 4)[1] == b@[1]);
        assert(b@.subrange(0, 4)[2] == b@[2]);
        assert(b@.subrange(0, 4)[3] == b@[3]);
        return Err(DeserializationError::BrandMismatch);
    }
    assert(b@.subrange(0, 4) =~= brand@);
    let received_major = read_be16(b, 4);
    if received_major != major {
        return Err(DeserializationError::MajorVersionMismatch { expected: major, received: received_major });
    }
    let received_minor = read_be16(b, 6);
    if received_minor > minor {
        return Err(DeserializationError::MinorVersionTooNew { supported: minor, received: received_minor });
    }
    let mut p: Vec<u8> = Vec::new();
    let mut i: usize = 8;
    while i < b.len()
        invariant
            8 <= i <= b@.len(),
            p@ == b@.subrange(8, i as int),
        decreases b@.len() - i,
    {
        p.push(b[i]);
        i += 1;
        assert(p@ =~= b@.subrange(8, i as int));
    }
    Ok((received_minor, p))
}

/// Reading back a message gives its payload.
pub proof fn lemma_envelope_round_trip(brand: Seq<u8>, major: u16, minor: u16, payload: Seq<u8>)
    requires
        brand.len() == 4,
    ensures
        open_envelope(envelope(brand, major, minor, payload), brand, major, minor) == Ok::<
            Seq<u8>,
            DeserializationError,
        >(payload),
{
    lemma_envelope_header(brand, major, minor, payload);
}

/// The parts of a message's header, as a reader sees them.
pub proof fn lemma_envelope_header(brand: Seq<u8>, major: u16, minor: u16, payload: Seq<u8>)
    requires
        brand.len() == 4,
    ensures
        envelope(brand, major, minor, payload).len() == 8 + payload.len(),
        envelope(brand, major, minor, payload).subrange(0, 4) == brand,
        from_be16(envelope(brand, major, minor, payload).subrange(4, 6)) == major,
        from_be16(envelope(brand, major, minor, payload).subrange(6, 8)) == minor,
        envelope(brand, major, minor, payload).subrange(8, 8 + payload.len() as int) == payload,
{
    lemma_be16_round_trip(major);
    lemma_be16_round_trip(minor);
    let e = envelope(brand, major, minor, payload);
    assert(e.subrange(0, 4) =~= brand);
    assert(e.subrange(4, 6) =~= be16(major));
    assert(e.subrange(6, 8) =~= be16(minor));
    assert(e.subrange(8, 8 + payload.len() as int) =~= payload);
}

/// A reader of another brand refuses the message for its brand, before it looks
/// at anything else.
pub proof fn lemma_brand_discrimination(
    brand: Seq<u8>,
    other: Seq<u8>,
    major: u16,
    minor: u16,
    other_major: u16,
    other_minor: u16,
    payload: Seq<u8>,
)
    requires
        brand.len() == 4,
        other.len() == 4,
        brand != other,
    ensures
        open_envelope(envelope(brand, major, minor, payload), other, other_major, other_minor)
            == Err::<Seq<u8>, DeserializationError>(DeserializationError::BrandMismatch),
{
    lemma_envelope_header(brand, major, minor, payload);
}

/// A message whose major version differs from the reader's is refused with a
/// major mismatch; one whose minor version is newer than the reader's, with a
/// minor-too-new error.
pub proof fn lemma_version_gating(
    brand: Seq<u8>,
    major: u16,
    minor: u16,
    sent_major: u16,
    sent_minor: u16,
    payload: Seq<u8>,
)
    requires
        brand.len() == 4,
    ensures
        sent_major != major ==> open_envelope(envelope(brand, sent_major, sent_minor, payload), brand, major, minor)
            == Err::<Seq<u8>, DeserializationError>(
            DeserializationError::MajorVersionMismatch { expected: major, received: sent_major },
        ),
        sent_major == major && sent_minor > minor ==> open_envelope(
            envelope(brand, sent_major, sent_minor, payload),
            brand,
            major,
            minor,
        ) == Err::<Seq<u8>, DeserializationError>(
            DeserializationError::MinorVersionTooNew { supported: minor, received: sent_minor },
        ),
{
    lemma_envelope_header(brand, sent_major, sent_minor, payload);
}

} // verus!
