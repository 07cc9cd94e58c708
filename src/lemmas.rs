//! What holds across functions: messages read back as written, readers refuse
//! other brands, and signed bytes pin down what they sign.

use crate::node_metadata::{
    metadata_brand, metadata_bytes, metadata_fits, parse_metadata, parse_request,
    parse_signed_response, payload_bytes, payload_fits, request_brand,
    request_bytes, request_fits, response_brand, response_bytes, response_fits,
    signed_response_bytes, signed_response_fits, lemma_metadata_round_trip, lemma_payload_round_trip,
    lemma_request_round_trip, lemma_response_round_trip, lemma_signed_response_round_trip,
    MetadataRequestView, MetadataResponseView, NodeMetadataPayloadView, NodeMetadataView,
    VerifiedMetadataResponseView,
};
use crate::retrieval_kit::{kit_brand, kit_bytes, kit_fits, lemma_kit_round_trip, parse_kit};
use crate::crypto::{decryption_of, opens_to, public_key_of, signature_valid, valid_secret_key};
use crate::codec::fields_fit;
use crate::treasure_map::{
    encrypted_for, opened_map, authorization_message, authorized_brand, authorized_bytes, authorized_fits, encrypted_brand,
    encrypted_bytes, encrypted_fits, lemma_authorized_round_trip, lemma_encrypted_round_trip,
    lemma_map_round_trip, map_brand, map_bytes, map_fits, parse_authorized, parse_encrypted,
    parse_map, AuthorizedTreasureMapView, EncryptedTreasureMapView, TreasureMapView,
};
use crate::versioning::{
    envelope, lemma_brand_discrimination, lemma_envelope_header, lemma_envelope_round_trip,
    open_envelope, DeserializationError,
};
use vstd::prelude::*;

verus! {

/// The brands of the message types: node metadata, metadata request, metadata
/// response, retrieval kit, treasure map, authorized map, encrypted map.
pub open spec fn brands() -> Seq<Seq<u8>> {
    seq![
        metadata_brand(),
        request_brand(),
        response_brand(),
        kit_brand(),
        map_brand(),
        authorized_brand(),
        encrypted_brand(),
    ]
}

/// A message of one type, read as a message of any other type, is refused for
/// its brand.
pub proof fn lemma_brands_discriminate(sent: int, read: int, payload: Seq<u8>)
    requires
        0 <= sent < brands().len(),
        0 <= read < brands().len(),
        sent != read,
    ensures
        open_envelope(envelope(brands()[sent], 1, 0, payload), brands()[read], 1, 0) == Err::<
            Seq<u8>,
            DeserializationError,
        >(DeserializationError::BrandMismatch),
{
    let a = brands()[sent];
    let b = brands()[read];
    assert(a.len() == 4 && b.len() == 4);
    if a == b {
        assert(a[0] == b[0] && a[1] == b[1] && a[2] == b[2] && a[3] == b[3]);
    }
    lemma_brand_discrimination(a, b, 1, 0, 1, 0, payload);
}

/// Node metadata reads back as written.
pub proof fn lemma_node_metadata_round_trip(m: NodeMetadataView)
    requires
        metadata_fits(m),
    ensures
        open_envelope(envelope(metadata_brand(), 1, 0, metadata_bytes(m)), metadata_brand(), 1, 0)
            == Ok::<Seq<u8>, DeserializationError>(metadata_bytes(m)),
        parse_metadata(metadata_bytes(m)) == Some(m),
{
    lemma_envelope_round_trip(metadata_brand(), 1, 0, metadata_bytes(m));
    lemma_metadata_round_trip(m);
}

/// A metadata request reads back as written, with any number of entries.
pub proof fn lemma_metadata_request_round_trip(m: MetadataRequestView)
    requires
        request_fits(m),
    ensures
        open_envelope(envelope(request_brand(), 1, 0, request_bytes(m)), request_brand(), 1, 0)
            == Ok::<Seq<u8>, DeserializationError>(request_bytes(m)),
        parse_request(request_bytes(m)) == Some(m),
{
    lemma_envelope_round_trip(request_brand(), 1, 0, request_bytes(m));
    lemma_request_round_trip(m);
}

/// A metadata response reads back as written.
pub proof fn lemma_metadata_response_round_trip(m: MetadataResponseView)
    requires
        signed_response_fits(m),
    ensures
        open_envelope(
            envelope(response_brand(), 1, 0, signed_response_bytes(m)),
            response_brand(),
            1,
            0,
        ) == Ok::<Seq<u8>, DeserializationError>(signed_response_bytes(m)),
        parse_signed_response(signed_response_bytes(m)) == Some(m),
{
    lemma_envelope_round_trip(response_brand(), 1, 0, signed_response_bytes(m));
    lemma_signed_response_round_trip(m);
}

/// A retrieval kit reads back with the capsule and the addresses it listed.
pub proof fn lemma_retrieval_kit_round_trip(capsule: Seq<u8>, addresses: Seq<Seq<u8>>)
    requires
        kit_fits(capsule, addresses),
    ensures
        open_envelope(envelope(kit_brand(), 1, 0, kit_bytes(capsule, addresses)), kit_brand(), 1, 0)
            == Ok::<Seq<u8>, DeserializationError>(kit_bytes(capsule, addresses)),
        parse_kit(kit_bytes(capsule, addresses)) == Some((capsule, addresses)),
{
    lemma_envelope_round_trip(kit_brand(), 1, 0, kit_bytes(capsule, addresses));
    lemma_kit_round_trip(capsule, addresses);
}

/// A treasure map reads back as written.
pub proof fn lemma_treasure_map_round_trip(m: TreasureMapView)
    requires
        map_fits(m),
    ensures
        open_envelope(envelope(map_brand(), 1, 0, map_bytes(m)), map_brand(), 1, 0) == Ok::<
            Seq<u8>,
            DeserializationError,
        >(map_bytes(m)),
        parse_map(map_bytes(m)) == Some(m),
{
    lemma_envelope_round_trip(map_brand(), 1, 0, map_bytes(m));
    lemma_map_round_trip(m);
}

/// An authorized treasure map reads back as written.
pub proof fn lemma_authorized_map_round_trip(m: AuthorizedTreasureMapView)
    requires
        authorized_fits(m),
    ensures
        open_envelope(envelope(authorized_brand(), 1, 0, authorized_bytes(m)), authorized_brand(), 1, 0)
            == Ok::<Seq<u8>, DeserializationError>(authorized_bytes(m)),
        parse_authorized(authorized_bytes(m)) == Some(m),
{
    lemma_envelope_round_trip(authorized_brand(), 1, 0, authorized_bytes(m));
    lemma_authorized_round_trip(m);
}

/// An encrypted treasure map reads back as written.
pub proof fn lemma_encrypted_map_round_trip(m: EncryptedTreasureMapView)
    requires
        encrypted_fits(m),
    ensures
        open_envelope(envelope(encrypted_brand(), 1, 0, encrypted_bytes(m)), encrypted_brand(), 1, 0)
            == Ok::<Seq<u8>, DeserializationError>(encrypted_bytes(m)),
        parse_encrypted(encrypted_bytes(m)) == Some(m),
{
    lemma_envelope_round_trip(encrypted_brand(), 1, 0, encrypted_bytes(m));
    lemma_encrypted_round_trip(m);
}

/// Two node payloads with the same signed bytes are the same payload: a
/// signature checked against one payload's bytes is checked against no other's.
pub proof fn lemma_signed_payload_binds(a: NodeMetadataPayloadView, b: NodeMetadataPayloadView)
    requires
        payload_fits(a),
        payload_fits(b),
        a != b,
    ensures
        payload_bytes(a) != payload_bytes(b),
{
    lemma_payload_round_trip(a);
    lemma_payload_round_trip(b);
}

/// Two response payloads that differ, in their timestamp or in anything else,
/// have different signed bytes, whatever the entries' own signatures are.
pub proof fn lemma_signed_response_binds(a: VerifiedMetadataResponseView, b: VerifiedMetadataResponseView)
    requires
        response_fits(a),
        response_fits(b),
        a != b,
    ensures
        response_bytes(a) != response_bytes(b),
{
    lemma_response_round_trip(a);
    lemma_response_round_trip(b);
}

/// The message that authorizes a map for one recipient authorizes no map for a
/// recipient with another key of the same length.
pub proof fn lemma_authorization_binds_recipient(
    first_recipient: Seq<u8>,
    second_recipient: Seq<u8>,
    first_map: TreasureMapView,
    second_map: TreasureMapView,
)
    requires
        first_recipient.len() == second_recipient.len(),
        first_recipient != second_recipient,
        map_fits(first_map),
        map_fits(second_map),
    ensures
        authorization_message(first_recipient, first_map) != authorization_message(
            second_recipient,
            second_map,
        ),
{
    let m1 = authorization_message(first_recipient, first_map);
    let m2 = authorization_message(second_recipient, second_map);
    if m1 == m2 {
        let n = first_recipient.len() as int;
        assert(m1.subrange(0, n) =~= first_recipient);
        assert(m2.subrange(0, n) =~= second_recipient);
    }
}

/// A map authorized for one recipient and read by that recipient binds the
/// very map that was authorized.
pub proof fn lemma_authorization_binds_map(
    recipient: Seq<u8>,
    first_map: TreasureMapView,
    second_map: TreasureMapView,
)
    requires
        map_fits(first_map),
        map_fits(second_map),
        first_map != second_map,
    ensures
        authorization_message(recipient, first_map) != authorization_message(recipient, second_map),
{
    let m1 = authorization_message(recipient, first_map);
    let m2 = authorization_message(recipient, second_map);
    if m1 == m2 {
        let n = recipient.len() as int;
        let e1 = envelope(map_brand(), 1, 0, map_bytes(first_map));
        let e2 = envelope(map_brand(), 1, 0, map_bytes(second_map));
        assert(m1.subrange(n, m1.len() as int) =~= e1);
        assert(m2.subrange(n, m2.len() as int) =~= e2);
        lemma_envelope_header(map_brand(), 1, 0, map_bytes(first_map));
        lemma_envelope_header(map_brand(), 1, 0, map_bytes(second_map));
        lemma_map_round_trip(first_map);
        lemma_map_round_trip(second_map);
        assert(map_bytes(first_map) == map_bytes(second_map));
    }
}

/// A map encrypted for a recipient decrypts, under that recipient's secret key,
/// to the map authorized for that recipient, which the recipient accepts under
/// the publisher's key.
pub proof fn lemma_encrypt_then_decrypt(
    e: EncryptedTreasureMapView,
    secret: Seq<u8>,
    m: TreasureMapView,
    publisher_key: Seq<u8>,
)
    requires
        valid_secret_key(secret),
        encrypted_for(e, public_key_of(secret), m, publisher_key),
        map_fits(m),
        map_bytes(m).len() <= u64::MAX,
    ensures
        !crate::crypto::points_cancel(e.capsule),
        decryption_of(secret, e.capsule, e.ciphertext) matches Some(p) && opened_map(
            p,
            public_key_of(secret),
            publisher_key,
        ) == Ok::<Option<TreasureMapView>, crate::treasure_map::DecryptionFailure>(Some(m)),
{
    let recipient = public_key_of(secret);
    let sig = choose|signature: Seq<u8>|
        #![trigger opens_to(e.capsule, e.ciphertext, recipient, envelope(authorized_brand(), 1, 0, authorized_bytes(AuthorizedTreasureMapView { signature, treasure_map: m })))]
        signature.len() == 64 && !crate::crypto::points_cancel(e.capsule) && signature_valid(
            signature,
            publisher_key,
            authorization_message(recipient, m),
        ) && opens_to(
            e.capsule,
            e.ciphertext,
            recipient,
            envelope(
                authorized_brand(),
                1,
                0,
                authorized_bytes(AuthorizedTreasureMapView { signature, treasure_map: m }),
            ),
        );
    let a = AuthorizedTreasureMapView { signature: sig, treasure_map: m };
    let plaintext = envelope(authorized_brand(), 1, 0, authorized_bytes(a));
    assert(decryption_of(secret, e.capsule, e.ciphertext) == Some(plaintext));
    let fs = seq![sig, map_bytes(m)];
    assert(fields_fit(fs)) by {
        assert forall|i: int| 0 <= i < 2 implies #[trigger] fs[i].len() <= u64::MAX by {
            if i == 0 {
                assert(fs[i] == sig);
            } else {
                assert(fs[i] == map_bytes(m));
            }
        }
    }
    lemma_envelope_round_trip(authorized_brand(), 1, 0, authorized_bytes(a));
    lemma_authorized_round_trip(a);
}

} // verus!
