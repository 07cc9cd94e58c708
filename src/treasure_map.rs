//! Treasure maps: the encrypted key fragments of a policy, assigned to proxy
//! nodes, and the protocol that authorizes a map for one recipient, encrypts it
//! for that recipient, and decrypts and checks it on the recipient's side.

use crate::codec::{
    after, be32, copy_bytes, lemma_join2_len, lemma_join3_len, decode_fields, decode_u32, encode_fields, encode_u32, fields_fit, join,
    lemma_be32_round_trip, lemma_parse_join, parse_fields, parse_u32, views,
};
use crate::crypto::{
    capsule_points_cancel, points_cancel, decrypt, decryption_of, encrypt, encryptable, key_frag_bytes, opens_to, public_key_of,
    signature_valid, valid_public_key, valid_secret_key, verify, PublicKey, SecretKey, Signer,
};
use crate::node_metadata::Address;
use crate::versioning::{
    lemma_envelope_round_trip, envelope, lemma_envelope_header, open_envelope, seal_envelope, unseal_envelope, DeserializationError,
};
use vstd::prelude::*;

verus! {

/// The identifier of a policy.
pub type Hrac = Vec<u8>;

/// Why a map or a key fragment could not be encrypted.
#[derive(Debug, Clone, Copy, PartialEq, Eq, Structural)]
pub enum EncryptionFailure {
    /// The recipient's key bytes encode no public key.
    InvalidRecipientKey,
    /// The encryption primitive refused the plaintext as too large.
    PlaintextTooLarge,
}

/// Why an encrypted map could not be opened. A map that opens but whose
/// authorization does not check is no failure: `decrypt` returns `Ok(None)`.
#[derive(Debug, Clone, Copy, PartialEq, Eq, Structural)]
pub enum DecryptionFailure {
    /// The ciphertext does not decrypt under the given secret key.
    DecryptionFailed,
    /// The plaintext is no authorized map.
    Deserialization(DeserializationError),
}

/// A key fragment sealed for one proxy node.
#[derive(Debug, Clone, PartialEq)]
pub struct EncryptedKeyFrag {
    /// The capsule of the encryption.
    pub capsule: Vec<u8>,
    /// The encrypted, signed key fragment.
    pub ciphertext: Vec<u8>,
}

/// The value an `EncryptedKeyFrag` holds.
pub struct EncryptedKeyFragView {
    pub capsule: Seq<u8>,
    pub ciphertext: Seq<u8>,
}

impl View for EncryptedKeyFrag {
    type V = EncryptedKeyFragView;

    open spec fn view(&self) -> EncryptedKeyFragView {
        EncryptedKeyFragView { capsule: self.capsule@, ciphertext: self.ciphertext@ }
    }
}

/// Maps the encryption primitive's answer to this library's error.
fn encryption_outcome(r: Option<Result<(Vec<u8>, Vec<u8>), umbral_pre::EncryptionError>>) -> (out:
    Result<(Vec<u8>, Vec<u8>), EncryptionFailure>)
    ensures
        r is None <==> out == Err::<(Vec<u8>, Vec<u8>), EncryptionFailure>(
            EncryptionFailure::InvalidRecipientKey,
        ),
        r matches Some(Ok(v)) ==> out == Ok::<(Vec<u8>, Vec<u8>), EncryptionFailure>(v),
        r matches Some(Err(_)) ==> out == Err::<(Vec<u8>, Vec<u8>), EncryptionFailure>(
            EncryptionFailure::PlaintextTooLarge,
        ),
{
    match r {
        None => Err(EncryptionFailure::InvalidRecipientKey),
        Some(Ok(v)) => Ok(v),
        Some(Err(_)) => Err(EncryptionFailure::PlaintextTooLarge),
    }
}

/// What a sealed fragment holds: the policy identifier, the fragment, and the
/// signature over both.
pub open spec fn sealed_message(hrac: Seq<u8>, kfrag: Seq<u8>, signature: Seq<u8>) -> Seq<u8> {
    join(seq![hrac, kfrag, signature])
}

/// What the signature of a sealed fragment covers.
pub open spec fn signed_fragment(hrac: Seq<u8>, kfrag: Seq<u8>) -> Seq<u8> {
    join(seq![hrac, kfrag])
}

/// Whether `e` seals, for the holder of `recipient_key`, the policy identifier
/// `hrac` and the fragment bytes `kfrag`, with a signature over both that checks
/// under `signer_key`.
pub open spec fn seals_fragment(
    e: EncryptedKeyFragView,
    recipient_key: Seq<u8>,
    hrac: Seq<u8>,
    kfrag: Seq<u8>,
    signer_key: Seq<u8>,
) -> bool {
    exists|signature: Seq<u8>|
        #![trigger opens_to(e.capsule, e.ciphertext, recipient_key, sealed_message(hrac, kfrag, signature))]
        signature_valid(signature, signer_key, signed_fragment(hrac, kfrag)) && opens_to(
            e.capsule,
            e.ciphertext,
            recipient_key,
            sealed_message(hrac, kfrag, signature),
        )
}

/// Whether `e` seals, for the holder of `recipient_key`, the policy identifier
/// `hrac` and a key fragment (260 bytes), signed under `signer_key`.
pub open spec fn seals(
    e: EncryptedKeyFragView,
    recipient_key: Seq<u8>,
    hrac: Seq<u8>,
    signer_key: Seq<u8>,
) -> bool {
    exists|kfrag: Seq<u8>|
        #![trigger seals_fragment(e, recipient_key, hrac, kfrag, signer_key)]
        kfrag.len() == 260 && seals_fragment(e, recipient_key, hrac, kfrag, signer_key)
}

/// Seals the fragment bytes `kfrag` for the node of `recipient_key`: the policy's
/// identifier and the fragment, signed by `signer`, encrypted under
/// `recipient_key`.
pub fn seal_key_frag(signer: &Signer, recipient_key: &PublicKey, hrac: &Hrac, kfrag: &[u8]) -> (r:
    Result<EncryptedKeyFrag, EncryptionFailure>)
    ensures
        r == Err::<EncryptedKeyFrag, EncryptionFailure>(EncryptionFailure::InvalidRecipientKey)
            <==> !valid_public_key(recipient_key@),
        valid_public_key(recipient_key@) && encryptable(hrac@.len() + kfrag@.len() + 88int) ==> r is Ok,
        r matches Ok(e) ==> seals_fragment(e@, recipient_key@, hrac@, kfrag@, public_key_of(signer@)),
{
    let mut signed: Vec<Vec<u8>> = Vec::new();
    signed.push(copy_bytes(hrac));
    signed.push(crate::codec::copy_range(kfrag, 0, kfrag.len()));
    assert(kfrag@.subrange(0, kfrag@.len() as int) =~= kfrag@);
    assert(views(signed@) =~= seq![hrac@, kfrag@]);
    let message = encode_fields(&signed);
    let signature = signer.sign(message.as_slice());
    let ghost sig = signature@;
    signed.push(signature);
    assert(views(signed@) =~= seq![hrac@, kfrag@, sig]);
    let plaintext = encode_fields(&signed);
    proof {
        lemma_join3_len(hrac@, kfrag@, sig);
    }
    match encryption_outcome(encrypt(recipient_key.as_slice(), plaintext.as_slice())) {
        Ok((capsule, ciphertext)) => {
            let e = EncryptedKeyFrag { capsule, ciphertext };
            assert(opens_to(e@.capsule, e@.ciphertext, recipient_key@, sealed_message(hrac@, kfrag@, sig)));
            Ok(e)
        },
        Err(e) => Err(e),
    }
}

impl EncryptedKeyFrag {
    /// Seals `kfrag` for the node of `recipient_key`: the policy's identifier and
    /// the fragment, signed by `signer`, encrypted under `recipient_key`.
    pub fn new(
        signer: &Signer,
        recipient_key: &PublicKey,
        hrac: &Hrac,
        kfrag: &umbral_pre::VerifiedKeyFrag,
    ) -> (r: Result<Self, EncryptionFailure>)
        ensures
            r == Err::<Self, EncryptionFailure>(EncryptionFailure::InvalidRecipientKey)
                <==> !valid_public_key(recipient_key@),
            valid_public_key(recipient_key@) && encryptable(hrac@.len() + 348int) ==> r is Ok,
            r matches Ok(e) ==> seals(e@, recipient_key@, hrac@, public_key_of(signer@)),
    {
        let kfrag_bytes = key_frag_bytes(kfrag);
        let r = seal_key_frag(signer, recipient_key, hrac, kfrag_bytes.as_slice());
        if let Ok(e) = &r {
            assert(seals_fragment(e@, recipient_key@, hrac@, kfrag_bytes@, public_key_of(signer@)));
        }
        r
    }

    /// A copy of the sealed fragment.
    pub fn duplicate(&self) -> (r: Self)
        ensures
            r@ == self@,
    {
        EncryptedKeyFrag { capsule: copy_bytes(&self.capsule), ciphertext: copy_bytes(&self.ciphertext) }
    }
}

/// The value of one destination: a node's address and its sealed fragment.
pub open spec fn destination_view(d: (Address, EncryptedKeyFrag)) -> (Seq<u8>, EncryptedKeyFragView) {
    (d.0@, d.1@)
}

/// The values of the destinations.
pub open spec fn destination_views(ds: Seq<(Address, EncryptedKeyFrag)>) -> Seq<
    (Seq<u8>, EncryptedKeyFragView),
> {
    ds.map_values(|d: (Address, EncryptedKeyFrag)| destination_view(d))
}

/// The fields of one destination's encoding.
pub open spec fn destination_fields(d: (Seq<u8>, EncryptedKeyFragView)) -> Seq<Seq<u8>> {
    seq![d.0, d.1.capsule, d.1.ciphertext]
}

/// The encodings of the destinations.
pub open spec fn destination_list(ds: Seq<(Seq<u8>, EncryptedKeyFragView)>) -> Seq<Seq<u8>> {
    ds.map_values(|d: (Seq<u8>, EncryptedKeyFragView)| join(destination_fields(d)))
}

/// The destinations as one field.
pub open spec fn destinations_bytes(ds: Seq<(Seq<u8>, EncryptedKeyFragView)>) -> Seq<u8> {
    join(destination_list(ds))
}

pub open spec fn destinations_fit(ds: Seq<(Seq<u8>, EncryptedKeyFragView)>) -> bool {
    &&& fields_fit(destination_list(ds))
    &&& forall|i: int| 0 <= i < ds.len() ==> fields_fit(#[trigger] destination_fields(ds[i]))
}

/// Reads one destination.
pub open spec fn parse_destination(b: Seq<u8>) -> Option<(Seq<u8>, EncryptedKeyFragView)> {
    match parse_fields(b) {
        Some(fs) => if fs.len() == 3 {
            Some((fs[0], EncryptedKeyFragView { capsule: fs[1], ciphertext: fs[2] }))
        } else {
            None
        },
        None => None,
    }
}

/// Reads each field as a destination.
pub open spec fn parse_destination_list(fs: Seq<Seq<u8>>) -> Option<
    Seq<(Seq<u8>, EncryptedKeyFragView)>,
>
    decreases fs.len(),
{
    if fs.len() == 0 {
        Some(Seq::empty())
    } else {
        match parse_destination(fs[0]) {
            Some(d) => after(seq![d], parse_destination_list(fs.drop_first())),
            None => None,
        }
    }
}

/// The destinations whose field is `b`, where there are any.
pub open spec fn parse_destinations(b: Seq<u8>) -> Option<Seq<(Seq<u8>, EncryptedKeyFragView)>> {
    match parse_fields(b) {
        Some(fs) => parse_destination_list(fs),
        None => None,
    }
}

proof fn lemma_destination_list(ds: Seq<(Seq<u8>, EncryptedKeyFragView)>)
    requires
        forall|i: int| 0 <= i < ds.len() ==> fields_fit(#[trigger] destination_fields(ds[i])),
    ensures
        parse_destination_list(destination_list(ds)) == Some(ds),
    decreases ds.len(),
{
    if ds.len() > 0 {
        let rest = ds.drop_first();
        assert forall|i: int| 0 <= i < rest.len() implies fields_fit(
            #[trigger] destination_fields(rest[i]),
        ) by {
            assert(rest[i] == ds[i + 1]);
        }
        lemma_destination_list(rest);
        assert(fields_fit(destination_fields(ds[0])));
        lemma_parse_join(destination_fields(ds[0]));
        assert(destination_list(ds).drop_first() =~= destination_list(rest));
        assert(seq![ds[0]] + rest =~= ds);
    }
}

pub proof fn lemma_destinations_round_trip(ds: Seq<(Seq<u8>, EncryptedKeyFragView)>)
    requires
        destinations_fit(ds),
    ensures
        parse_destinations(destinations_bytes(ds)) == Some(ds),
{
    lemma_parse_join(destination_list(ds));
    lemma_destination_list(ds);
}

/// Copies of the destinations.
fn duplicate_destinations(ds: &Vec<(Address, EncryptedKeyFrag)>) -> (r: Vec<(Address, EncryptedKeyFrag)>)
    ensures
        destination_views(r@) == destination_views(ds@),
{
    let mut r: Vec<(Address, EncryptedKeyFrag)> = Vec::new();
    let mut i: usize = 0;
    while i < ds.len()
        invariant
            i <= ds@.len(),
            destination_views(r@) == destination_views(ds@.take(i as int)),
        decreases ds@.len() - i,
    {
        let ghost old_r = r@;
        let d = (copy_bytes(&ds[i].0), ds[i].1.duplicate());
        r.push(d);
        assert(destination_views(old_r.push(d)) =~= destination_views(old_r).push(destination_view(d)));
        assert(ds@.take(i + 1) =~= ds@.take(i as int).push(ds@[i as int]));
        assert(destination_views(ds@.take(i as int).push(ds@[i as int])) =~= destination_views(
            ds@.take(i as int),
        ).push(destination_view(ds@[i as int])));
        i += 1;
    }
    assert(ds@.take(ds@.len() as int) =~= ds@);
    r
}

/// Writes the destinations as one field.
fn encode_destinations(ds: &Vec<(Address, EncryptedKeyFrag)>) -> (r: Vec<u8>)
    ensures
        r@ == destinations_bytes(destination_views(ds@)),
{
    let mut fs: Vec<Vec<u8>> = Vec::new();
    let mut i: usize = 0;
    while i < ds.len()
        invariant
            i <= ds@.len(),
            views(fs@) == destination_list(destination_views(ds@.take(i as int))),
        decreases ds@.len() - i,
    {
        let mut parts: Vec<Vec<u8>> = Vec::new();
        parts.push(copy_bytes(&ds[i].0));
        parts.push(copy_bytes(&ds[i].1.capsule));
        parts.push(copy_bytes(&ds[i].1.ciphertext));
        assert(views(parts@) =~= destination_fields(destination_view(ds@[i as int])));
        let f = encode_fields(&parts);
        let ghost old_fs = fs@;
        fs.push(f);
        assert(views(old_fs.push(f)) =~= views(old_fs).push(f@));
        assert(ds@.take(i + 1) =~= ds@.take(i as int).push(ds@[i as int]));
        assert(destination_views(ds@.take(i as int).push(ds@[i as int])) =~= destination_views(
            ds@.take(i as int),
        ).push(destination_view(ds@[i as int])));
        assert(destination_list(destination_views(ds@.take(i as int)).push(destination_view(ds@[i as int])))
            =~= destination_list(destination_views(ds@.take(i as int))).push(f@));
        i += 1;
    }
    assert(ds@.take(ds@.len() as int) =~= ds@);
    encode_fields(&fs)
}

/// Reads the destinations from one field.
fn decode_destinations(b: &[u8]) -> (r: Option<Vec<(Address, EncryptedKeyFrag)>>)
    ensures
        match r {
            Some(ds) => parse_destinations(b@) == Some(destination_views(ds@)),
            None => parse_destinations(b@) is None,
        },
{
    let fs = match decode_fields(b) {
        Some(fs) => fs,
        None => {
            return None;
        },
    };
    let ghost vfs = views(fs@);
    let mut acc: Vec<(Address, EncryptedKeyFrag)> = Vec::new();
    let mut i: usize = 0;
    assert(vfs.skip(0) =~= vfs);
    assert(destination_views(acc@) + Seq::<(Seq<u8>, EncryptedKeyFragView)>::empty() =~= destination_views(acc@));
    while i < fs.len()
        invariant
            vfs == views(fs@),
            parse_fields(b@) == Some(vfs),
            i <= fs@.len(),
            parse_destination_list(vfs) == after(
                destination_views(acc@),
                parse_destination_list(vfs.skip(i as int)),
            ),
        decreases fs@.len() - i,
    {
        let ghost rest = vfs.skip(i as int);
        assert(rest[0] == fs@[i as int]@);
        assert(rest.drop_first() =~= vfs.skip(i + 1));
        let parts = match decode_fields(fs[i].as_slice()) {
            Some(parts) => parts,
            None => {
                return None;
            },
        };
        if parts.len() != 3 {
            return None;
        }
        assert(views(parts@)[0] == parts@[0]@ && views(parts@)[1] == parts@[1]@ && views(parts@)[2]
            == parts@[2]@);
        let d = (
            copy_bytes(&parts[0]),
            EncryptedKeyFrag { capsule: copy_bytes(&parts[1]), ciphertext: copy_bytes(&parts[2]) },
        );
        let ghost old_acc = destination_views(acc@);
        acc.push(d);
        assert(destination_views(acc@) =~= old_acc.push(destination_view(d)));
        proof {
            match parse_destination_list(vfs.skip(i + 1)) {
                Some(tail) => {
                    assert(old_acc + (seq![destination_view(d)] + tail) =~= old_acc.push(
                        destination_view(d),
                    ) + tail);
                },
                None => {},
            }
        }
        i += 1;
    }
    assert(vfs.skip(i as int) =~= Seq::<Seq<u8>>::empty());
    assert(destination_views(acc@) + Seq::<(Seq<u8>, EncryptedKeyFragView)>::empty() =~= destination_views(acc@));
    Some(acc)
}

/// The key fragments of a policy, each sealed for the proxy node it is assigned to.
#[derive(Debug, Clone, PartialEq)]
pub struct TreasureMap {
    /// How many fragments a re-encryption needs.
    pub threshold: u8,
    /// The policy's identifier.
    pub hrac: Hrac,
    /// Each node's address with the fragment sealed for it, in the order given.
    pub destinations: Vec<(Address, EncryptedKeyFrag)>,
    /// The key under which messages of the policy are encrypted.
    pub policy_encrypting_key: PublicKey,
    /// The publisher's verifying key.
    pub publisher_verifying_key: PublicKey,
}

/// The value a `TreasureMap` holds.
pub struct TreasureMapView {
    pub threshold: u8,
    pub hrac: Seq<u8>,
    pub destinations: Seq<(Seq<u8>, EncryptedKeyFragView)>,
    pub policy_encrypting_key: Seq<u8>,
    pub publisher_verifying_key: Seq<u8>,
}

impl View for TreasureMap {
    type V = TreasureMapView;

    open spec fn view(&self) -> TreasureMapView {
        TreasureMapView {
            threshold: self.threshold,
            hrac: self.hrac@,
            destinations: destination_views(self.destinations@),
            policy_encrypting_key: self.policy_encrypting_key@,
            publisher_verifying_key: self.publisher_verifying_key@,
        }
    }
}

pub open spec fn map_fields(m: TreasureMapView) -> Seq<Seq<u8>> {
    seq![
        be32(m.threshold as u32),
        m.hrac,
        destinations_bytes(m.destinations),
        m.policy_encrypting_key,
        m.publisher_verifying_key,
    ]
}

/// The encoding of a map, without the envelope.
pub open spec fn map_bytes(m: TreasureMapView) -> Seq<u8> {
    join(map_fields(m))
}

pub open spec fn map_fits(m: TreasureMapView) -> bool {
    fields_fit(map_fields(m)) && destinations_fit(m.destinations)
}

/// The map whose encoding is `b`, where there is one.
pub open spec fn parse_map(b: Seq<u8>) -> Option<TreasureMapView> {
    match parse_fields(b) {
        Some(fs) => if fs.len() != 5 {
            None
        } else {
            match (parse_u32(fs[0]), parse_destinations(fs[2])) {
                (Some(threshold), Some(destinations)) => if threshold <= 0xff {
                    Some(
                        TreasureMapView {
                            threshold: threshold as u8,
                            hrac: fs[1],
                            destinations,
                            policy_encrypting_key: fs[3],
                            publisher_verifying_key: fs[4],
                        },
                    )
                } else {
                    None
                },
                _ => None,
            }
        },
        None => None,
    }
}

pub proof fn lemma_map_round_trip(m: TreasureMapView)
    requires
        map_fits(m),
    ensures
        parse_map(map_bytes(m)) == Some(m),
{
    lemma_parse_join(map_fields(m));
    lemma_be32_round_trip(m.threshold as u32);
    lemma_destinations_round_trip(m.destinations);
}

/// The brand of a treasure map, `TMap`.
pub open spec fn map_brand() -> Seq<u8> {
    seq![84u8, 77u8, 97u8, 112u8]
}

/// The message a publisher signs to authorize a map for one recipient: the
/// recipient's key, then the map's whole message.
pub open spec fn authorization_message(recipient_key: Seq<u8>, m: TreasureMapView) -> Seq<u8> {
    recipient_key + envelope(map_brand(), 1, 0, map_bytes(m))
}

impl TreasureMap {
    /// Seals each assigned fragment for its node and records the node's address
    /// with it, in the order given. The publisher's key is the signer's.
    pub fn new(
        signer: &Signer,
        hrac: &Hrac,
        policy_encrypting_key: &PublicKey,
        assigned_kfrags: &[(Address, PublicKey, umbral_pre::VerifiedKeyFrag)],
        threshold: u8,
    ) -> (r: Result<Self, EncryptionFailure>)
        requires
            threshold != 0,
            assigned_kfrags@.len() >= threshold,
        ensures
            (forall|i: int| 0 <= i < assigned_kfrags@.len() ==> valid_public_key(
                #[trigger] assigned_kfrags@[i].1@,
            )) ==> r != Err::<Self, EncryptionFailure>(EncryptionFailure::InvalidRecipientKey),
            r == Err::<Self, EncryptionFailure>(EncryptionFailure::InvalidRecipientKey) ==> exists|
                i: int,
            |
                0 <= i < assigned_kfrags@.len() && !valid_public_key(#[trigger] assigned_kfrags@[i].1@),
            r matches Ok(m) ==> {
                &&& m.threshold == threshold
                &&& m.hrac@ == hrac@
                &&& m.policy_encrypting_key@ == policy_encrypting_key@
                &&& m.destinations@.len() == assigned_kfrags@.len()
                &&& forall|i: int|
                    0 <= i < assigned_kfrags@.len() ==> #[trigger] m.destinations@[i].0@
                        == assigned_kfrags@[i].0@
                &&& m.destinations@.len() >= m.threshold >= 1
                &&& m.publisher_verifying_key@ == public_key_of(signer@)
                &&& forall|i: int|
                    0 <= i < assigned_kfrags@.len() ==> seals(
                        #[trigger] m.destinations@[i].1@,
                        assigned_kfrags@[i].1@,
                        hrac@,
                        public_key_of(signer@),
                    )
            },
            (forall|i: int| 0 <= i < assigned_kfrags@.len() ==> valid_public_key(
                #[trigger] assigned_kfrags@[i].1@,
            )) && encryptable(hrac@.len() + 348int) ==> r is Ok,
    {
        let mut destinations: Vec<(Address, EncryptedKeyFrag)> = Vec::new();
        let mut i: usize = 0;
        while i < assigned_kfrags.len()
            invariant
                i <= assigned_kfrags@.len(),
                destinations@.len() == i,
                forall|j: int| 0 <= j < i ==> #[trigger] destinations@[j].0@ == assigned_kfrags@[j].0@,
                forall|j: int| 0 <= j < i ==> valid_public_key(#[trigger] assigned_kfrags@[j].1@),
                forall|j: int|
                    0 <= j < i ==> seals(
                        #[trigger] destinations@[j].1@,
                        assigned_kfrags@[j].1@,
                        hrac@,
                        public_key_of(signer@),
                    ),
            decreases assigned_kfrags@.len() - i,
        {
            let (address, key, kfrag) = &assigned_kfrags[i];
            let sealed = match EncryptedKeyFrag::new(signer, key, hrac, kfrag) {
                Ok(sealed) => sealed,
                Err(e) => {
                    assert(assigned_kfrags@[i as int].1@ == key@);
                    return Err(e);
                },
            };
            let ghost before = destinations@;
            destinations.push((copy_bytes(address), sealed));
            assert(destinations@[i as int].1@ == sealed@);
            assert(forall|j: int| 0 <= j < i ==> destinations@[j] == before[j]);
            assert(assigned_kfrags@[i as int].1@ == key@);
            i += 1;
        }
        let m = TreasureMap {
            threshold,
            hrac: copy_bytes(hrac),
            destinations,
            policy_encrypting_key: copy_bytes(policy_encrypting_key),
            publisher_verifying_key: signer.verifying_key(),
        };
        Ok(m)
    }

    /// A copy of the map.
    pub fn duplicate(&self) -> (r: Self)
        ensures
            r@ == self@,
    {
        TreasureMap {
            threshold: self.threshold,
            hrac: copy_bytes(&self.hrac),
            destinations: duplicate_destinations(&self.destinations),
            policy_encrypting_key: copy_bytes(&self.policy_encrypting_key),
            publisher_verifying_key: copy_bytes(&self.publisher_verifying_key),
        }
    }

    /// Authorizes the map for the holder of `recipient_key` and encrypts it for
    /// them.
    pub fn encrypt(&self, signer: &Signer, recipient_key: &PublicKey) -> (r: Result<
        EncryptedTreasureMap,
        EncryptionFailure,
    >)
        ensures
            r == Err::<EncryptedTreasureMap, EncryptionFailure>(EncryptionFailure::InvalidRecipientKey)
                <==> !valid_public_key(recipient_key@),
            valid_public_key(recipient_key@) && encryptable(authorized_length(self@)) ==> r is Ok,
            r matches Ok(e) ==> encrypted_for(e@, recipient_key@, self@, public_key_of(signer@)),
    {
        EncryptedTreasureMap::new(signer, recipient_key, self)
    }

    /// The brand that opens this type's messages.
    pub fn brand() -> (r: [u8; 4])
        ensures
            r@ == map_brand(),
    {
        let r: [u8; 4] = [84, 77, 97, 112];
        assert(r@ =~= map_brand());
        r
    }

    /// The version this library writes and reads: major, then minor.
    pub fn version() -> (r: (u16, u16))
        ensures
            r == (1u16, 0u16),
    {
        (1, 0)
    }

    /// The encoding without the envelope.
    pub fn unversioned_to_bytes(&self) -> (r: Vec<u8>)
        ensures
            r@ == map_bytes(self@),
    {
        let mut fs: Vec<Vec<u8>> = Vec::new();
        fs.push(encode_u32(self.threshold as u32));
        fs.push(copy_bytes(&self.hrac));
        fs.push(encode_destinations(&self.destinations));
        fs.push(copy_bytes(&self.policy_encrypting_key));
        fs.push(copy_bytes(&self.publisher_verifying_key));
        assert(views(fs@) =~= map_fields(self@));
        encode_fields(&fs)
    }

    /// Reads the encoding without the envelope, written at minor version
    /// `minor_version`; `None` for a minor version this library does not know.
    pub fn unversioned_from_bytes(minor_version: u16, b: &[u8]) -> (r: Option<
        Result<Self, DeserializationError>,
    >)
        ensures
            minor_version != 0 ==> r is None,
            minor_version == 0 ==> match parse_map(b@) {
                Some(m) => r matches Some(Ok(x)) && x@ == m,
                None => r == Some(Err::<Self, DeserializationError>(DeserializationError::PayloadMalformed)),
            },
    {
        if minor_version != 0 {
            return None;
        }
        let fs = match decode_fields(b) {
            Some(fs) => fs,
            None => {
                return Some(Err(DeserializationError::PayloadMalformed));
            },
        };
        if fs.len() != 5 {
            return Some(Err(DeserializationError::PayloadMalformed));
        }
        assert(views(fs@)[0] == fs@[0]@ && views(fs@)[1] == fs@[1]@ && views(fs@)[2] == fs@[2]@);
        assert(views(fs@)[3] == fs@[3]@ && views(fs@)[4] == fs@[4]@);
        let threshold = match decode_u32(fs[0].as_slice()) {
            Some(t) => t,
            None => {
                return Some(Err(DeserializationError::PayloadMalformed));
            },
        };
        let destinations = match decode_destinations(fs[2].as_slice()) {
            Some(d) => d,
            None => {
                return Some(Err(DeserializationError::PayloadMalformed));
            },
        };
        if threshold > 0xff {
            return Some(Err(DeserializationError::PayloadMalformed));
        }
        Some(
            Ok(
                TreasureMap {
                    threshold: threshold as u8,
                    hrac: copy_bytes(&fs[1]),
                    destinations,
                    policy_encrypting_key: copy_bytes(&fs[3]),
                    publisher_verifying_key: copy_bytes(&fs[4]),
                },
            ),
        )
    }

    /// The message: envelope, then encoding.
    pub fn to_bytes(&self) -> (r: Vec<u8>)
        ensures
            r@ == envelope(map_brand(), 1, 0, map_bytes(self@)),
            map_fits(self@) ==> open_envelope(r@, map_brand(), 1, 0) == Ok::<
                Seq<u8>,
                DeserializationError,
            >(map_bytes(self@)) && parse_map(map_bytes(self@)) == Some(self@),
    {
        proof {
            if map_fits(self@) {
                lemma_envelope_round_trip(map_brand(), 1, 0, map_bytes(self@));
                lemma_map_round_trip(self@);
            }
        }
        let payload = self.unversioned_to_bytes();
        seal_envelope(Self::brand(), 1, 0, payload.as_slice())
    }

    /// Reads a message written by `to_bytes`.
    pub fn from_bytes(b: &[u8]) -> (r: Result<Self, DeserializationError>)
        ensures
            match open_envelope(b@, map_brand(), 1, 0) {
                Err(e) => r == Err::<Self, DeserializationError>(e),
                Ok(p) => match parse_map(p) {
                    Some(m) => r matches Ok(x) && x@ == m,
                    None => r == Err::<Self, DeserializationError>(DeserializationError::PayloadMalformed),
                },
            },
    {
        let (minor, payload) = match unseal_envelope(b, Self::brand(), 1, 0) {
            Ok(p) => p,
            Err(e) => {
                return Err(e);
            },
        };
        match Self::unversioned_from_bytes(minor, payload.as_slice()) {
            Some(r) => r,
            None => Err(DeserializationError::PayloadMalformed),
        }
    }
}

/// A treasure map with the publisher's signature binding it to one recipient.
#[derive(Debug, Clone, PartialEq)]
pub struct AuthorizedTreasureMap {
    /// The publisher's signature over the recipient's key and the map.
    pub signature: Vec<u8>,
    /// The authorized map.
    pub treasure_map: TreasureMap,
}

/// The value an `AuthorizedTreasureMap` holds.
pub struct AuthorizedTreasureMapView {
    pub signature: Seq<u8>,
    pub treasure_map: TreasureMapView,
}

impl View for AuthorizedTreasureMap {
    type V = AuthorizedTreasureMapView;

    open spec fn view(&self) -> AuthorizedTreasureMapView {
        AuthorizedTreasureMapView { signature: self.signature@, treasure_map: self.treasure_map@ }
    }
}

pub open spec fn authorized_fields(m: AuthorizedTreasureMapView) -> Seq<Seq<u8>> {
    seq![m.signature, map_bytes(m.treasure_map)]
}

/// The encoding of an authorized map, without the envelope.
pub open spec fn authorized_bytes(m: AuthorizedTreasureMapView) -> Seq<u8> {
    join(authorized_fields(m))
}

pub open spec fn authorized_fits(m: AuthorizedTreasureMapView) -> bool {
    fields_fit(authorized_fields(m)) && map_fits(m.treasure_map)
}

/// The authorized map whose encoding is `b`, where there is one.
pub open spec fn parse_authorized(b: Seq<u8>) -> Option<AuthorizedTreasureMapView> {
    match parse_fields(b) {
        Some(fs) => if fs.len() != 2 {
            None
        } else {
            match parse_map(fs[1]) {
                Some(treasure_map) => Some(
                    AuthorizedTreasureMapView { signature: fs[0], treasure_map },
                ),
                None => None,
            }
        },
        None => None,
    }
}

pub proof fn lemma_authorized_round_trip(m: AuthorizedTreasureMapView)
    requires
        authorized_fits(m),
    ensures
        parse_authorized(authorized_bytes(m)) == Some(m),
{
    lemma_parse_join(authorized_fields(m));
    lemma_map_round_trip(m.treasure_map);
}

/// The brand of an authorized map, `AMap`.
pub open spec fn authorized_brand() -> Seq<u8> {
    seq![65u8, 77u8, 97u8, 112u8]
}

/// Builds the message that authorizes `treasure_map` for `recipient_key`.
fn authorization_bytes(recipient_key: &PublicKey, treasure_map: &TreasureMap) -> (r: Vec<u8>)
    ensures
        r@ == authorization_message(recipient_key@, treasure_map@),
{
    let mut message = copy_bytes(recipient_key);
    let map = treasure_map.to_bytes();
    let ghost start = message@;
    let mut i: usize = 0;
    while i < map.len()
        invariant
            i <= map@.len(),
            message@ == start + map@.subrange(0, i as int),
        decreases map@.len() - i,
    {
        message.push(map[i]);
        i += 1;
        assert(message@ =~= start + map@.subrange(0, i as int));
    }
    assert(map@.subrange(0, map@.len() as int) =~= map@);
    message
}

impl AuthorizedTreasureMap {
    /// Signs the recipient's key together with the map, so that the map cannot
    /// be passed off as authorized for anyone else.
    pub fn new(signer: &Signer, recipient_key: &PublicKey, treasure_map: &TreasureMap) -> (r:
        Self)
        ensures
            r.treasure_map@ == treasure_map@,
            r.signature@.len() == 64,
            signature_valid(
                r.signature@,
                public_key_of(signer@),
                authorization_message(recipient_key@, treasure_map@),
            ),
    {
        let message = authorization_bytes(recipient_key, treasure_map);
        AuthorizedTreasureMap {
            signature: signer.sign(message.as_slice()),
            treasure_map: treasure_map.duplicate(),
        }
    }

    /// The map, where the signature covers it and `recipient_key` under
    /// `publisher_verifying_key`.
    pub fn verify(&self, recipient_key: &PublicKey, publisher_verifying_key: &PublicKey) -> (r:
        Option<TreasureMap>)
        ensures
            r is Some <==> signature_valid(
                self.signature@,
                publisher_verifying_key@,
                authorization_message(recipient_key@, self.treasure_map@),
            ),
            r matches Some(m) ==> m@ == self.treasure_map@,
    {
        let message = authorization_bytes(recipient_key, &self.treasure_map);
        if !verify(self.signature.as_slice(), publisher_verifying_key.as_slice(), message.as_slice()) {
            return None;
        }
        Some(self.treasure_map.duplicate())
    }

    /// The brand that opens this type's messages.
    pub fn brand() -> (r: [u8; 4])
        ensures
            r@ == authorized_brand(),
    {
        let r: [u8; 4] = [65, 77, 97, 112];
        assert(r@ =~= authorized_brand());
        r
    }

    /// The version this library writes and reads: major, then minor.
    pub fn version() -> (r: (u16, u16))
        ensures
            r == (1u16, 0u16),
    {
        (1, 0)
    }

    /// The encoding without the envelope.
    pub fn unversioned_to_bytes(&self) -> (r: Vec<u8>)
        ensures
            r@ == authorized_bytes(self@),
    {
        let mut fs: Vec<Vec<u8>> = Vec::new();
        fs.push(copy_bytes(&self.signature));
        fs.push(self.treasure_map.unversioned_to_bytes());
        assert(views(fs@) =~= authorized_fields(self@));
        encode_fields(&fs)
    }

    /// Reads the encoding without the envelope, written at minor version
    /// `minor_version`; `None` for a minor version this library does not know.
    pub fn unversioned_from_bytes(minor_version: u16, b: &[u8]) -> (r: Option<
        Result<Self, DeserializationError>,
    >)
        ensures
            minor_version != 0 ==> r is None,
            minor_version == 0 ==> match parse_authorized(b@) {
                Some(m) => r matches Some(Ok(x)) && x@ == m,
                None => r == Some(Err::<Self, DeserializationError>(DeserializationError::PayloadMalformed)),
            },
    {
        if minor_version != 0 {
            return None;
        }
        let fs = match decode_fields(b) {
            Some(fs) => fs,
            None => {
                return Some(Err(DeserializationError::PayloadMalformed));
            },
        };
        if fs.len() != 2 {
            return Some(Err(DeserializationError::PayloadMalformed));
        }
        assert(views(fs@)[0] == fs@[0]@ && views(fs@)[1] == fs@[1]@);
        match TreasureMap::unversioned_from_bytes(0, fs[1].as_slice()) {
            Some(Ok(treasure_map)) => Some(
                Ok(AuthorizedTreasureMap { signature: copy_bytes(&fs[0]), treasure_map }),
            ),
            _ => Some(Err(DeserializationError::PayloadMalformed)),
        }
    }

    /// The message: envelope, then encoding.
    pub fn to_bytes(&self) -> (r: Vec<u8>)
        ensures
            r@ == envelope(authorized_brand(), 1, 0, authorized_bytes(self@)),
            authorized_fits(self@) ==> open_envelope(r@, authorized_brand(), 1, 0) == Ok::<
                Seq<u8>,
                DeserializationError,
            >(authorized_bytes(self@)) && parse_authorized(authorized_bytes(self@)) == Some(self@),
    {
        proof {
            if authorized_fits(self@) {
                lemma_envelope_round_trip(authorized_brand(), 1, 0, authorized_bytes(self@));
                lemma_authorized_round_trip(self@);
            }
        }
        let payload = self.unversioned_to_bytes();
        seal_envelope(Self::brand(), 1, 0, payload.as_slice())
    }

    /// Reads a message written by `to_bytes`.
    pub fn from_bytes(b: &[u8]) -> (r: Result<Self, DeserializationError>)
        ensures
            match open_envelope(b@, authorized_brand(), 1, 0) {
                Err(e) => r == Err::<Self, DeserializationError>(e),
                Ok(p) => match parse_authorized(p) {
                    Some(m) => r matches Ok(x) && x@ == m,
                    None => r == Err::<Self, DeserializationError>(DeserializationError::PayloadMalformed),
                },
            },
    {
        let (minor, payload) = match unseal_envelope(b, Self::brand(), 1, 0) {
            Ok(p) => p,
            Err(e) => {
                return Err(e);
            },
        };
        match Self::unversioned_from_bytes(minor, payload.as_slice()) {
            Some(r) => r,
            None => Err(DeserializationError::PayloadMalformed),
        }
    }
}

/// What the recipient makes of the plaintext of an encrypted map: the map where
/// the publisher authorized it for this recipient, `None` where the
/// authorization does not check.
pub open spec fn opened_map(
    plaintext: Seq<u8>,
    recipient_key: Seq<u8>,
    publisher_verifying_key: Seq<u8>,
) -> Result<Option<TreasureMapView>, DecryptionFailure> {
    match open_envelope(plaintext, authorized_brand(), 1, 0) {
        Err(e) => Err(DecryptionFailure::Deserialization(e)),
        Ok(p) => match parse_authorized(p) {
            None => Err(DecryptionFailure::Deserialization(DeserializationError::PayloadMalformed)),
            Some(a) => if signature_valid(
                a.signature,
                publisher_verifying_key,
                authorization_message(recipient_key, a.treasure_map),
            ) {
                Ok(Some(a.treasure_map))
            } else {
                Ok(None)
            },
        },
    }
}

/// Reads the plaintext of an encrypted map as an authorized map and checks the
/// authorization against `recipient_key` and `publisher_verifying_key`.
pub fn open_authorized_map(
    plaintext: &[u8],
    recipient_key: &PublicKey,
    publisher_verifying_key: &PublicKey,
) -> (r: Result<Option<TreasureMap>, DecryptionFailure>)
    ensures
        match opened_map(plaintext@, recipient_key@, publisher_verifying_key@) {
            Err(e) => r == Err::<Option<TreasureMap>, DecryptionFailure>(e),
            Ok(None) => r == Ok::<Option<TreasureMap>, DecryptionFailure>(None),
            Ok(Some(m)) => r matches Ok(Some(x)) && x@ == m,
        },
{
    match AuthorizedTreasureMap::from_bytes(plaintext) {
        Ok(authorized) => Ok(authorized.verify(recipient_key, publisher_verifying_key)),
        Err(e) => Err(DecryptionFailure::Deserialization(e)),
    }
}

/// A treasure map encrypted for its recipient: the only form in which a map
/// travels.
#[derive(Debug, Clone, PartialEq)]
pub struct EncryptedTreasureMap {
    /// The capsule of the encryption.
    pub capsule: Vec<u8>,
    /// The encrypted authorized map.
    pub ciphertext: Vec<u8>,
}

/// The value an `EncryptedTreasureMap` holds.
pub struct EncryptedTreasureMapView {
    pub capsule: Seq<u8>,
    pub ciphertext: Seq<u8>,
}

impl View for EncryptedTreasureMap {
    type V = EncryptedTreasureMapView;

    open spec fn view(&self) -> EncryptedTreasureMapView {
        EncryptedTreasureMapView { capsule: self.capsule@, ciphertext: self.ciphertext@ }
    }
}

pub open spec fn encrypted_fields(m: EncryptedTreasureMapView) -> Seq<Seq<u8>> {
    seq![m.capsule, m.ciphertext]
}

/// The encoding of an encrypted map, without the envelope.
pub open spec fn encrypted_bytes(m: EncryptedTreasureMapView) -> Seq<u8> {
    join(encrypted_fields(m))
}

pub open spec fn encrypted_fits(m: EncryptedTreasureMapView) -> bool {
    fields_fit(encrypted_fields(m))
}

/// The encrypted map whose encoding is `b`, where there is one.
pub open spec fn parse_encrypted(b: Seq<u8>) -> Option<EncryptedTreasureMapView> {
    match parse_fields(b) {
        Some(fs) => if fs.len() != 2 {
            None
        } else {
            Some(EncryptedTreasureMapView { capsule: fs[0], ciphertext: fs[1] })
        },
        None => None,
    }
}

pub proof fn lemma_encrypted_round_trip(m: EncryptedTreasureMapView)
    requires
        encrypted_fits(m),
    ensures
        parse_encrypted(encrypted_bytes(m)) == Some(m),
{
    lemma_parse_join(encrypted_fields(m));
}

/// The brand of an encrypted map, `EMap`.
pub open spec fn encrypted_brand() -> Seq<u8> {
    seq![69u8, 77u8, 97u8, 112u8]
}

/// The length of an authorized map's message, whose signature is 64 bytes.
pub open spec fn authorized_length(m: TreasureMapView) -> int {
    88 + map_bytes(m).len() as int
}

/// Whether `e` holds, for the holder of `recipient_key`, the map `m` authorized
/// for that recipient under `publisher_key`.
pub open spec fn encrypted_for(
    e: EncryptedTreasureMapView,
    recipient_key: Seq<u8>,
    m: TreasureMapView,
    publisher_key: Seq<u8>,
) -> bool {
    exists|signature: Seq<u8>|
        #![trigger opens_to(e.capsule, e.ciphertext, recipient_key, envelope(authorized_brand(), 1, 0, authorized_bytes(AuthorizedTreasureMapView { signature, treasure_map: m })))]
        signature.len() == 64 && !points_cancel(e.capsule) && signature_valid(
            signature,
            publisher_key,
            authorization_message(recipient_key, m),
        ) && opens_to(
            e.capsule,
            e.ciphertext,
            recipient_key,
            envelope(
                authorized_brand(),
                1,
                0,
                authorized_bytes(AuthorizedTreasureMapView { signature, treasure_map: m }),
            ),
        )
}

impl EncryptedTreasureMap {
    /// Authorizes `treasure_map` for the holder of `recipient_key` and encrypts
    /// the authorized map under that key.
    pub fn new(signer: &Signer, recipient_key: &PublicKey, treasure_map: &TreasureMap) -> (r:
        Result<Self, EncryptionFailure>)
        ensures
            r == Err::<Self, EncryptionFailure>(EncryptionFailure::InvalidRecipientKey)
                <==> !valid_public_key(recipient_key@),
            valid_public_key(recipient_key@) && encryptable(authorized_length(treasure_map@)) ==> r is Ok,
            r matches Ok(e) ==> encrypted_for(e@, recipient_key@, treasure_map@, public_key_of(signer@)),
    {
        let authorized = AuthorizedTreasureMap::new(signer, recipient_key, treasure_map);
        let plaintext = authorized.to_bytes();
        proof {
            lemma_join2_len(authorized@.signature, map_bytes(treasure_map@));
            lemma_envelope_header(authorized_brand(), 1, 0, authorized_bytes(authorized@));
            assert(authorized@ == AuthorizedTreasureMapView { signature: authorized@.signature, treasure_map: treasure_map@ });
        }
        match encryption_outcome(encrypt(recipient_key.as_slice(), plaintext.as_slice())) {
            Ok((capsule, ciphertext)) => {
                let e = EncryptedTreasureMap { capsule, ciphertext };
                assert(opens_to(e@.capsule, e@.ciphertext, recipient_key@, envelope(authorized_brand(), 1, 0, authorized_bytes(AuthorizedTreasureMapView { signature: authorized@.signature, treasure_map: treasure_map@ }))));
                Ok(e)
            },
            Err(e) => Err(e),
        }
    }

    /// Decrypts the map with `sk` and checks that the publisher of
    /// `publisher_verifying_key` authorized it for the holder of `sk`: the key
    /// checked is the public half of `sk`, never one read from the plaintext.
    pub fn decrypt(&self, sk: &SecretKey, publisher_verifying_key: &PublicKey) -> (r: Result<
        Option<TreasureMap>,
        DecryptionFailure,
    >)
        ensures
            points_cancel(self.capsule@) ==> r == Err::<Option<TreasureMap>, DecryptionFailure>(
                DecryptionFailure::DecryptionFailed,
            ),
            !points_cancel(self.capsule@) ==> match decryption_of(sk@, self.capsule@, self.ciphertext@) {
                None => r == Err::<Option<TreasureMap>, DecryptionFailure>(
                    DecryptionFailure::DecryptionFailed,
                ),
                Some(p) => match opened_map(p, public_key_of(sk@), publisher_verifying_key@) {
                    Err(e) => r == Err::<Option<TreasureMap>, DecryptionFailure>(e),
                    Ok(None) => r == Ok::<Option<TreasureMap>, DecryptionFailure>(None),
                    Ok(Some(m)) => r matches Ok(Some(x)) && x@ == m,
                },
            },
    {
        if capsule_points_cancel(self.capsule.as_slice()) {
            return Err(DecryptionFailure::DecryptionFailed);
        }
        let plaintext = match decrypt(sk.as_bytes(), self.capsule.as_slice(), self.ciphertext.as_slice()) {
            Some(p) => p,
            None => {
                return Err(DecryptionFailure::DecryptionFailed);
            },
        };
        let recipient_key = sk.public_key();
        open_authorized_map(plaintext.as_slice(), &recipient_key, publisher_verifying_key)
    }

    /// The brand that opens this type's messages.
    pub fn brand() -> (r: [u8; 4])
        ensures
            r@ == encrypted_brand(),
    {
        let r: [u8; 4] = [69, 77, 97, 112];
        assert(r@ =~= encrypted_brand());
        r
    }

    /// The version this library writes and reads: major, then minor.
    pub fn version() -> (r: (u16, u16))
        ensures
            r == (1u16, 0u16),
    {
        (1, 0)
    }

    /// The encoding without the envelope.
    pub fn unversioned_to_bytes(&self) -> (r: Vec<u8>)
        ensures
            r@ == encrypted_bytes(self@),
    {
        let mut fs: Vec<Vec<u8>> = Vec::new();
        fs.push(copy_bytes(&self.capsule));
        fs.push(copy_bytes(&self.ciphertext));
        assert(views(fs@) =~= encrypted_fields(self@));
        encode_fields(&fs)
    }

    /// Reads the encoding without the envelope, written at minor version
    /// `minor_version`; `None` for a minor version this library does not know.
    pub fn unversioned_from_bytes(minor_version: u16, b: &[u8]) -> (r: Option<
        Result<Self, DeserializationError>,
    >)
        ensures
            minor_version != 0 ==> r is None,
            minor_version == 0 ==> match parse_encrypted(b@) {
                Some(m) => r matches Some(Ok(x)) && x@ == m,
                None => r == Some(Err::<Self, DeserializationError>(DeserializationError::PayloadMalformed)),
            },
    {
        if minor_version != 0 {
            return None;
        }
        let fs = match decode_fields(b) {
            Some(fs) => fs,
            None => {
                return Some(Err(DeserializationError::PayloadMalformed));
            },
        };
        if fs.len() != 2 {
            return Some(Err(DeserializationError::PayloadMalformed));
        }
        assert(views(fs@)[0] == fs@[0]@ && views(fs@)[1] == fs@[1]@);
        Some(Ok(EncryptedTreasureMap { capsule: copy_bytes(&fs[0]), ciphertext: copy_bytes(&fs[1]) }))
    }

    /// The message: envelope, then encoding.
    pub fn to_bytes(&self) -> (r: Vec<u8>)
        ensures
            r@ == envelope(encrypted_brand(), 1, 0, encrypted_bytes(self@)),
            encrypted_fits(self@) ==> open_envelope(r@, encrypted_brand(), 1, 0) == Ok::<
                Seq<u8>,
                DeserializationError,
            >(encrypted_bytes(self@)) && parse_encrypted(encrypted_bytes(self@)) == Some(self@),
    {
        proof {
            if encrypted_fits(self@) {
                lemma_envelope_round_trip(encrypted_brand(), 1, 0, encrypted_bytes(self@));
                lemma_encrypted_round_trip(self@);
            }
        }
        let payload = self.unversioned_to_bytes();
        seal_envelope(Self::brand(), 1, 0, payload.as_slice())
    }

    /// Reads a message written by `to_bytes`.
    pub fn from_bytes(b: &[u8]) -> (r: Result<Self, DeserializationError>)
        ensures
            match open_envelope(b@, encrypted_brand(), 1, 0) {
                Err(e) => r == Err::<Self, DeserializationError>(e),
                Ok(p) => match parse_encrypted(p) {
                    Some(m) => r matches Ok(x) && x@ == m,
                    None => r == Err::<Self, DeserializationError>(DeserializationError::PayloadMalformed),
                },
            },
    {
        let (minor, payload) = match unseal_envelope(b, Self::brand(), 1, 0) {
            Ok(p) => p,
            Err(e) => {
                return Err(e);
            },
        };
        match Self::unversioned_from_bytes(minor, payload.as_slice()) {
            Some(r) => r,
            None => Err(DeserializationError::PayloadMalformed),
        }
    }
}

} // verus!
