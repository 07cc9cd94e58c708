//! Signed node metadata, and the messages with which nodes exchange it.

use crate::codec::{
    be32, copy_bytes, decode_fields, decode_option, decode_text, decode_u32, encode_fields,
    encode_option, encode_text, encode_u32, fields_fit, join, lemma_be32_round_trip,
    lemma_option_round_trip, lemma_parse_join, lemma_text_round_trip, option_bytes, parse_fields,
    parse_option, parse_text, parse_u32, text_bytes, views,
};
use crate::crypto::{public_key_of, signature_valid, verify, PublicKey, Signer};
use crate::versioning::{
    lemma_envelope_round_trip, envelope, open_envelope, seal_envelope, unseal_envelope, DeserializationError,
};
use vstd::prelude::*;

verus! {

/// A staker's address.
pub type Address = Vec<u8>;

/// A digest that names a snapshot of the known nodes.
pub type FleetStateChecksum = Vec<u8>;

/// What a node announces of itself.
#[derive(Debug, Clone, PartialEq)]
pub struct NodeMetadataPayload {
    /// The staker's address.
    pub canonical_address: Address,
    /// The network identifier.
    pub domain: String,
    /// When the metadata was made.
    pub timestamp_epoch: u32,
    /// The node's verifying key.
    pub verifying_key: PublicKey,
    /// The node's encrypting key.
    pub encrypting_key: PublicKey,
    /// The node's TLS certificate.
    pub certificate_bytes: Vec<u8>,
    /// The host of the node's REST service.
    pub host: String,
    /// The port of the node's REST service.
    pub port: u16,
    /// The node's verifying key signed by the key of its worker address.
    pub decentralized_identity_evidence: Option<Vec<u8>>,
}

/// The value a `NodeMetadataPayload` holds.
pub struct NodeMetadataPayloadView {
    pub canonical_address: Seq<u8>,
    pub domain: Seq<char>,
    pub timestamp_epoch: u32,
    pub verifying_key: Seq<u8>,
    pub encrypting_key: Seq<u8>,
    pub certificate_bytes: Seq<u8>,
    pub host: Seq<char>,
    pub port: u16,
    pub decentralized_identity_evidence: Option<Seq<u8>>,
}

impl View for NodeMetadataPayload {
    type V = NodeMetadataPayloadView;

    open spec fn view(&self) -> NodeMetadataPayloadView {
        NodeMetadataPayloadView {
            canonical_address: self.canonical_address@,
            domain: self.domain@,
            timestamp_epoch: self.timestamp_epoch,
            verifying_key: self.verifying_key@,
            encrypting_key: self.encrypting_key@,
            certificate_bytes: self.certificate_bytes@,
            host: self.host@,
            port: self.port,
            decentralized_identity_evidence: match self.decentralized_identity_evidence {
                Some(e) => Some(e@),
                None => None,
            },
        }
    }
}

/// The fields of a payload's canonical encoding.
pub open spec fn payload_fields(m: NodeMetadataPayloadView) -> Seq<Seq<u8>> {
    seq![
        m.canonical_address,
        text_bytes(m.domain),
        be32(m.timestamp_epoch),
        m.verifying_key,
        m.encrypting_key,
        m.certificate_bytes,
        text_bytes(m.host),
        be32(m.port as u32),
        option_bytes(m.decentralized_identity_evidence),
    ]
}

/// The canonical encoding of a payload: the bytes that are signed.
pub open spec fn payload_bytes(m: NodeMetadataPayloadView) -> Seq<u8> {
    join(payload_fields(m))
}

/// Every field of the payload fits its length prefix.
pub open spec fn payload_fits(m: NodeMetadataPayloadView) -> bool {
    fields_fit(payload_fields(m))
}

/// The payload whose canonical encoding is `b`, where there is one.
pub open spec fn parse_payload(b: Seq<u8>) -> Option<NodeMetadataPayloadView> {
    match parse_fields(b) {
        Some(fs) => if fs.len() != 9 {
            None
        } else {
            match (
                parse_text(fs[1]),
                parse_u32(fs[2]),
                parse_text(fs[6]),
                parse_u32(fs[7]),
                parse_option(fs[8]),
            ) {
                (Some(domain), Some(timestamp_epoch), Some(host), Some(port), Some(evidence)) => {
                    if port <= 0xffff {
                        Some(
                            NodeMetadataPayloadView {
                                canonical_address: fs[0],
                                domain,
                                timestamp_epoch,
                                verifying_key: fs[3],
                                encrypting_key: fs[4],
                                certificate_bytes: fs[5],
                                host,
                                port: port as u16,
                                decentralized_identity_evidence: evidence,
                            },
                        )
                    } else {
                        None
                    }
                },
                _ => None,
            }
        },
        None => None,
    }
}

/// Decoding a payload's canonical encoding gives the payload.
pub proof fn lemma_payload_round_trip(m: NodeMetadataPayloadView)
    requires
        payload_fits(m),
    ensures
        parse_payload(payload_bytes(m)) == Some(m),
{
    lemma_parse_join(payload_fields(m));
    lemma_text_round_trip(m.domain);
    lemma_text_round_trip(m.host);
    lemma_be32_round_trip(m.timestamp_epoch);
    lemma_be32_round_trip(m.port as u32);
    lemma_option_round_trip(m.decentralized_identity_evidence);
}

impl NodeMetadataPayload {
    /// A copy of the payload.
    pub fn duplicate(&self) -> (r: Self)
        ensures
            r@ == self@,
    {
        NodeMetadataPayload {
            canonical_address: copy_bytes(&self.canonical_address),
            domain: self.domain.clone(),
            timestamp_epoch: self.timestamp_epoch,
            verifying_key: copy_bytes(&self.verifying_key),
            encrypting_key: copy_bytes(&self.encrypting_key),
            certificate_bytes: copy_bytes(&self.certificate_bytes),
            host: self.host.clone(),
            port: self.port,
            decentralized_identity_evidence: match &self.decentralized_identity_evidence {
                Some(e) => Some(copy_bytes(e)),
                None => None,
            },
        }
    }

    /// The canonical encoding, which signatures cover.
    pub fn to_bytes(&self) -> (r: Vec<u8>)
        ensures
            r@ == payload_bytes(self@),
    {
        let mut fs: Vec<Vec<u8>> = Vec::new();
        fs.push(copy_bytes(&self.canonical_address));
        fs.push(encode_text(self.domain.as_str()));
        fs.push(encode_u32(self.timestamp_epoch));
        fs.push(copy_bytes(&self.verifying_key));
        fs.push(copy_bytes(&self.encrypting_key));
        fs.push(copy_bytes(&self.certificate_bytes));
        fs.push(encode_text(self.host.as_str()));
        fs.push(encode_u32(self.port as u32));
        fs.push(encode_option(&self.decentralized_identity_evidence));
        assert(views(fs@) =~= payload_fields(self@));
        encode_fields(&fs)
    }

    /// Reads a payload from its canonical encoding.
    pub fn from_canonical_bytes(b: &[u8]) -> (r: Option<Self>)
        ensures
            match r {
                Some(p) => parse_payload(b@) == Some(p@),
                None => parse_payload(b@) is None,
            },
    {
        let fs = match decode_fields(b) {
            Some(fs) => fs,
            None => {
                return None;
            },
        };
        if fs.len() != 9 {
            return None;
        }
        assert(views(fs@)[1] == fs@[1]@ && views(fs@)[2] == fs@[2]@ && views(fs@)[6] == fs@[6]@);
        assert(views(fs@)[7] == fs@[7]@ && views(fs@)[8] == fs@[8]@ && views(fs@)[0] == fs@[0]@);
        assert(views(fs@)[3] == fs@[3]@ && views(fs@)[4] == fs@[4]@ && views(fs@)[5] == fs@[5]@);
        let domain = match decode_text(fs[1].as_slice()) {
            Some(t) => t,
            None => {
                return None;
            },
        };
        let timestamp_epoch = match decode_u32(fs[2].as_slice()) {
            Some(x) => x,
            None => {
                return None;
            },
        };
        let host = match decode_text(fs[6].as_slice()) {
            Some(t) => t,
            None => {
                return None;
            },
        };
        let port = match decode_u32(fs[7].as_slice()) {
            Some(x) => x,
            None => {
                return None;
            },
        };
        let evidence = match decode_option(fs[8].as_slice()) {
            Some(e) => e,
            None => {
                return None;
            },
        };
        if port > 0xffff {
            return None;
        }
        let r = NodeMetadataPayload {
            canonical_address: copy_bytes(&fs[0]),
            domain,
            timestamp_epoch,
            verifying_key: copy_bytes(&fs[3]),
            encrypting_key: copy_bytes(&fs[4]),
            certificate_bytes: copy_bytes(&fs[5]),
            host,
            port: port as u16,
            decentralized_identity_evidence: evidence,
        };
        Some(r)
    }
}

/// Node metadata signed by the node.
#[derive(Debug, Clone, PartialEq)]
pub struct NodeMetadata {
    /// The signature over the payload's canonical encoding.
    pub signature: Vec<u8>,
    /// The signed payload.
    pub payload: NodeMetadataPayload,
}

/// The value a `NodeMetadata` holds.
pub struct NodeMetadataView {
    pub signature: Seq<u8>,
    pub payload: NodeMetadataPayloadView,
}

impl View for NodeMetadata {
    type V = NodeMetadataView;

    open spec fn view(&self) -> NodeMetadataView {
        NodeMetadataView { signature: self.signature@, payload: self.payload@ }
    }
}

/// The fields of signed metadata's encoding.
pub open spec fn metadata_fields(m: NodeMetadataView) -> Seq<Seq<u8>> {
    seq![m.signature, payload_bytes(m.payload)]
}

/// The encoding of signed metadata, without the envelope.
pub open spec fn metadata_bytes(m: NodeMetadataView) -> Seq<u8> {
    join(metadata_fields(m))
}

/// Every field of signed metadata fits its length prefix.
pub open spec fn metadata_fits(m: NodeMetadataView) -> bool {
    fields_fit(metadata_fields(m)) && payload_fits(m.payload)
}

/// The signed metadata whose encoding is `b`, where there is one.
pub open spec fn parse_metadata(b: Seq<u8>) -> Option<NodeMetadataView> {
    match parse_fields(b) {
        Some(fs) => if fs.len() != 2 {
            None
        } else {
            match parse_payload(fs[1]) {
                Some(payload) => Some(NodeMetadataView { signature: fs[0], payload }),
                None => None,
            }
        },
        None => None,
    }
}

pub proof fn lemma_metadata_round_trip(m: NodeMetadataView)
    requires
        metadata_fits(m),
    ensures
        parse_metadata(metadata_bytes(m)) == Some(m),
{
    lemma_parse_join(metadata_fields(m));
    lemma_payload_round_trip(m.payload);
}

/// The brand of node metadata, `NdMd`.
pub open spec fn metadata_brand() -> Seq<u8> {
    seq![78u8, 100u8, 77u8, 100u8]
}

impl NodeMetadata {
    /// Signs `payload` with `signer` and keeps a copy of it.
    pub fn new(signer: &Signer, payload: &NodeMetadataPayload) -> (r: Self)
        ensures
            r.payload@ == payload@,
            r.signature@.len() == 64,
            signature_valid(r.signature@, public_key_of(signer@), payload_bytes(payload@)),
    {
        let message = payload.to_bytes();
        NodeMetadata { signature: signer.sign(message.as_slice()), payload: payload.duplicate() }
    }

    /// Whether the signature covers the payload under the payload's own
    /// verifying key. This checks only that the metadata is consistent; that the
    /// key belongs to the node is for the caller to establish.
    pub fn verify(&self) -> (r: bool)
        ensures
            r == signature_valid(
                self.signature@,
                self.payload.verifying_key@,
                payload_bytes(self.payload@),
            ),
    {
        let message = self.payload.to_bytes();
        verify(self.signature.as_slice(), self.payload.verifying_key.as_slice(), message.as_slice())
    }

    /// A copy of the signed metadata.
    pub fn duplicate(&self) -> (r: Self)
        ensures
            r@ == self@,
    {
        NodeMetadata { signature: copy_bytes(&self.signature), payload: self.payload.duplicate() }
    }

    /// The brand that opens this type's messages.
    pub fn brand() -> (r: [u8; 4])
        ensures
            r@ == metadata_brand(),
    {
        let r: [u8; 4] = [78, 100, 77, 100];
        assert(r@ =~= metadata_brand());
        r
    }

    /// The version this library writes and reads: major, then minor.
    pub fn version() -> (r: (u16, u16))
        ensures
            r == (1u16, 0u16),
    {
        (1, 0)
    }

    /// The encoding without the envelope.
    pub fn unversioned_to_bytes(&self) -> (r: Vec<u8>)
        ensures
            r@ == metadata_bytes(self@),
    {
        let mut fs: Vec<Vec<u8>> = Vec::new();
        fs.push(copy_bytes(&self.signature));
        fs.push(self.payload.to_bytes());
        assert(views(fs@) =~= metadata_fields(self@));
        encode_fields(&fs)
    }

    /// Reads the encoding without the envelope, written at minor version
    /// `minor_version`; `None` for a minor version this library does not know.
    pub fn unversioned_from_bytes(minor_version: u16, b: &[u8]) -> (r: Option<
        Result<Self, DeserializationError>,
    >)
        ensures
            minor_version != 0 ==> r is None,
            minor_version == 0 ==> match parse_metadata(b@) {
                Some(m) => r matches Some(Ok(x)) && x@ == m,
                None => r == Some(Err::<Self, DeserializationError>(DeserializationError::PayloadMalformed)),
            },
    {
        if minor_version != 0 {
            return None;
        }
        let fs = match decode_fields(b) {
            Some(fs) => fs,
            None => {
                return Some(Err(DeserializationError::PayloadMalformed));
            },
        };
        if fs.len() != 2 {
            return Some(Err(DeserializationError::PayloadMalformed));
        }
        assert(views(fs@)[0] == fs@[0]@ && views(fs@)[1] == fs@[1]@);
        match NodeMetadataPayload::from_canonical_bytes(fs[1].as_slice()) {
            Some(payload) => Some(Ok(NodeMetadata { signature: copy_bytes(&fs[0]), payload })),
            None => Some(Err(DeserializationError::PayloadMalformed)),
        }
    }

    /// The message: envelope, then encoding.
    pub fn to_bytes(&self) -> (r: Vec<u8>)
        ensures
            r@ == envelope(metadata_brand(), 1, 0, metadata_bytes(self@)),
            metadata_fits(self@) ==> open_envelope(r@, metadata_brand(), 1, 0) == Ok::<
                Seq<u8>,
                DeserializationError,
            >(metadata_bytes(self@)) && parse_metadata(metadata_bytes(self@)) == Some(self@),
    {
        proof {
            if metadata_fits(self@) {
                lemma_envelope_round_trip(metadata_brand(), 1, 0, metadata_bytes(self@));
                lemma_metadata_round_trip(self@);
            }
        }
        let payload = self.unversioned_to_bytes();
        seal_envelope(Self::brand(), 1, 0, payload.as_slice())
    }

    /// Reads a message written by `to_bytes`.
    pub fn from_bytes(b: &[u8]) -> (r: Result<Self, DeserializationError>)
        ensures
            match open_envelope(b@, metadata_brand(), 1, 0) {
                Err(e) => r == Err::<Self, DeserializationError>(e),
                Ok(p) => match parse_metadata(p) {
                    Some(m) => r matches Ok(x) && x@ == m,
                    None => r == Err::<Self, DeserializationError>(DeserializationError::PayloadMalformed),
                },
            },
    {
        let (minor, payload) = match unseal_envelope(b, Self::brand(), 1, 0) {
            Ok(p) => p,
            Err(e) => {
                return Err(e);
            },
        };
        match Self::unversioned_from_bytes(minor, payload.as_slice()) {
            Some(r) => r,
            None => Err(DeserializationError::PayloadMalformed),
        }
    }
}

/// The values a sequence of signed metadata holds.
pub open spec fn node_views(ns: Seq<NodeMetadata>) -> Seq<NodeMetadataView> {
    ns.map_values(|n: NodeMetadata| n@)
}

/// The encodings of a sequence of signed metadata.
pub open spec fn node_fields(vs: Seq<NodeMetadataView>) -> Seq<Seq<u8>> {
    vs.map_values(|v: NodeMetadataView| metadata_bytes(v))
}

/// A sequence of signed metadata as one field.
pub open spec fn nodes_bytes(vs: Seq<NodeMetadataView>) -> Seq<u8> {
    join(node_fields(vs))
}

/// Every entry, and the field of each, fits its length prefixes.
pub open spec fn nodes_fit(vs: Seq<NodeMetadataView>) -> bool {
    &&& fields_fit(node_fields(vs))
    &&& forall|i: int| 0 <= i < vs.len() ==> #[trigger] metadata_fits(vs[i])
}

/// Reads each field as signed metadata.
pub open spec fn parse_each(fs: Seq<Seq<u8>>) -> Option<Seq<NodeMetadataView>>
    decreases fs.len(),
{
    if fs.len() == 0 {
        Some(Seq::empty())
    } else {
        match parse_metadata(fs[0]) {
            Some(n) => match parse_each(fs.drop_first()) {
                Some(rest) => Some(seq![n] + rest),
                None => None,
            },
            None => None,
        }
    }
}

/// The sequence of signed metadata whose field is `b`, where there is one.
pub open spec fn parse_nodes(b: Seq<u8>) -> Option<Seq<NodeMetadataView>> {
    match parse_fields(b) {
        Some(fs) => parse_each(fs),
        None => None,
    }
}

proof fn lemma_parse_each(vs: Seq<NodeMetadataView>)
    requires
        forall|i: int| 0 <= i < vs.len() ==> #[trigger] metadata_fits(vs[i]),
    ensures
        parse_each(node_fields(vs)) == Some(vs),
    decreases vs.len(),
{
    if vs.len() > 0 {
        let rest = vs.drop_first();
        assert forall|i: int| 0 <= i < rest.len() implies #[trigger] metadata_fits(rest[i]) by {
            assert(rest[i] == vs[i + 1]);
        }
        lemma_parse_each(rest);
        assert(metadata_fits(vs[0]));
        lemma_metadata_round_trip(vs[0]);
        assert(node_fields(vs).drop_first() =~= node_fields(rest));
        assert(seq![vs[0]] + rest =~= vs);
    }
}

pub proof fn lemma_nodes_round_trip(vs: Seq<NodeMetadataView>)
    requires
        nodes_fit(vs),
    ensures
        parse_nodes(nodes_bytes(vs)) == Some(vs),
{
    lemma_parse_join(node_fields(vs));
    lemma_parse_each(vs);
}

/// Copies of the entries.
pub fn duplicate_nodes(ns: &[NodeMetadata]) -> (r: Vec<NodeMetadata>)
    ensures
        node_views(r@) == node_views(ns@),
{
    let mut r: Vec<NodeMetadata> = Vec::new();
    let mut i: usize = 0;
    while i < ns.len()
        invariant
            i <= ns@.len(),
            node_views(r@) == node_views(ns@.take(i as int)),
        decreases ns@.len() - i,
    {
        let ghost old_r = r@;
        let d = ns[i].duplicate();
        r.push(d);
        assert(r@ =~= old_r.push(d));
        assert(ns@.take(i + 1) =~= ns@.take(i as int).push(ns@[i as int]));
        assert(node_views(old_r.push(d)) =~= node_views(old_r).push(d@));
        assert(node_views(ns@.take(i as int).push(ns@[i as int])) =~= node_views(
            ns@.take(i as int),
        ).push(ns@[i as int]@));
        assert(node_views(r@) =~= node_views(ns@.take(i + 1)));
        i += 1;
    }
    assert(ns@.take(ns@.len() as int) =~= ns@);
    r
}

/// Writes the entries as one field.
pub fn encode_nodes(ns: &[NodeMetadata]) -> (r: Vec<u8>)
    ensures
        r@ == nodes_bytes(node_views(ns@)),
{
    let mut fs: Vec<Vec<u8>> = Vec::new();
    let mut i: usize = 0;
    while i < ns.len()
        invariant
            i <= ns@.len(),
            views(fs@) == node_fields(node_views(ns@.take(i as int))),
        decreases ns@.len() - i,
    {
        let ghost old_fs = fs@;
        let f = ns[i].unversioned_to_bytes();
        fs.push(f);
        assert(fs@ =~= old_fs.push(f));
        assert(ns@.take(i + 1) =~= ns@.take(i as int).push(ns@[i as int]));
        assert(views(old_fs.push(f)) =~= views(old_fs).push(f@));
        assert(node_views(ns@.take(i as int).push(ns@[i as int])) =~= node_views(
            ns@.take(i as int),
        ).push(ns@[i as int]@));
        assert(node_fields(node_views(ns@.take(i as int)).push(ns@[i as int]@)) =~= node_fields(
            node_views(ns@.take(i as int)),
        ).push(metadata_bytes(ns@[i as int]@)));
        assert(views(fs@) =~= node_fields(node_views(ns@.take(i + 1))));
        i += 1;
    }
    assert(ns@.take(ns@.len() as int) =~= ns@);
    encode_fields(&fs)
}

/// Reads the entries from one field.
pub fn decode_nodes(b: &[u8]) -> (r: Option<Vec<NodeMetadata>>)
    ensures
        match r {
            Some(ns) => parse_nodes(b@) == Some(node_views(ns@)),
            None => parse_nodes(b@) is None,
        },
{
    let fs = match decode_fields(b) {
        Some(fs) => fs,
        None => {
            return None;
        },
    };
    let ghost vfs = views(fs@);
    let mut acc: Vec<NodeMetadata> = Vec::new();
    let mut i: usize = 0;
    assert(vfs.skip(0) =~= vfs);
    assert(node_views(acc@) + Seq::<NodeMetadataView>::empty() =~= node_views(acc@));
    while i < fs.len()
        invariant
            vfs == views(fs@),
            parse_fields(b@) == Some(vfs),
            i <= fs@.len(),
            parse_each(vfs) == crate::codec::after(node_views(acc@), parse_each(vfs.skip(i as int))),
        decreases fs@.len() - i,
    {
        let ghost rest = vfs.skip(i as int);
        assert(rest[0] == fs@[i as int]@);
        assert(rest.drop_first() =~= vfs.skip(i + 1));
        match NodeMetadata::unversioned_from_bytes(0, fs[i].as_slice()) {
            Some(Ok(n)) => {
                let ghost old_acc = node_views(acc@);
                acc.push(n);
                assert(node_views(acc@) =~= old_acc.push(n@));
                proof {
                    match parse_each(vfs.skip(i + 1)) {
                        Some(tail) => {
                            assert(old_acc + (seq![n@] + tail) =~= old_acc.push(n@) + tail);
                        },
                        None => {},
                    }
                }
            },
            _ => {
                assert(rest.len() > 0);
                assert(parse_metadata(rest[0]) is None);
                assert(parse_each(rest) is None);
                return None;
            },
        }
        i += 1;
    }
    assert(vfs.skip(i as int) =~= Seq::<Seq<u8>>::empty());
    assert(node_views(acc@) + Seq::<NodeMetadataView>::empty() =~= node_views(acc@));
    Some(acc)
}

/// A request for metadata exchange. It carries no signature of its own: each
/// announced entry is signed by its node.
#[derive(Debug, Clone, PartialEq)]
pub struct MetadataRequest {
    /// The checksum of the requester's fleet state.
    pub fleet_state_checksum: FleetStateChecksum,
    /// The metadata to announce.
    pub announce_nodes: Vec<NodeMetadata>,
}

/// The value a `MetadataRequest` holds.
pub struct MetadataRequestView {
    pub fleet_state_checksum: Seq<u8>,
    pub announce_nodes: Seq<NodeMetadataView>,
}

impl View for MetadataRequest {
    type V = MetadataRequestView;

    open spec fn view(&self) -> MetadataRequestView {
        MetadataRequestView {
            fleet_state_checksum: self.fleet_state_checksum@,
            announce_nodes: node_views(self.announce_nodes@),
        }
    }
}

pub open spec fn request_fields(m: MetadataRequestView) -> Seq<Seq<u8>> {
    seq![m.fleet_state_checksum, nodes_bytes(m.announce_nodes)]
}

/// The encoding of a request, without the envelope.
pub open spec fn request_bytes(m: MetadataRequestView) -> Seq<u8> {
    join(request_fields(m))
}

pub open spec fn request_fits(m: MetadataRequestView) -> bool {
    fields_fit(request_fields(m)) && nodes_fit(m.announce_nodes)
}

/// The request whose encoding is `b`, where there is one.
pub open spec fn parse_request(b: Seq<u8>) -> Option<MetadataRequestView> {
    match parse_fields(b) {
        Some(fs) => if fs.len() != 2 {
            None
        } else {
            match parse_nodes(fs[1]) {
                Some(announce_nodes) => Some(
                    MetadataRequestView { fleet_state_checksum: fs[0], announce_nodes },
                ),
                None => None,
            }
        },
        None => None,
    }
}

pub proof fn lemma_request_round_trip(m: MetadataRequestView)
    requires
        request_fits(m),
    ensures
        parse_request(request_bytes(m)) == Some(m),
{
    lemma_parse_join(request_fields(m));
    lemma_nodes_round_trip(m.announce_nodes);
}

/// The brand of a metadata request, `MdRq`.
pub open spec fn request_brand() -> Seq<u8> {
    seq![77u8, 100u8, 82u8, 113u8]
}

impl MetadataRequest {
    /// A request with copies of the checksum and of the entries. The entries'
    /// signatures are not checked here.
    pub fn new(fleet_state_checksum: &FleetStateChecksum, announce_nodes: &[NodeMetadata]) -> (r:
        Self)
        ensures
            r.fleet_state_checksum@ == fleet_state_checksum@,
            node_views(r.announce_nodes@) == node_views(announce_nodes@),
    {
        MetadataRequest {
            fleet_state_checksum: copy_bytes(fleet_state_checksum),
            announce_nodes: duplicate_nodes(announce_nodes),
        }
    }

    /// The brand that opens this type's messages.
    pub fn brand() -> (r: [u8; 4])
        ensures
            r@ == request_brand(),
    {
        let r: [u8; 4] = [77, 100, 82, 113];
        assert(r@ =~= request_brand());
        r
    }

    /// The version this library writes and reads: major, then minor.
    pub fn version() -> (r: (u16, u16))
        ensures
            r == (1u16, 0u16),
    {
        (1, 0)
    }

    /// The encoding without the envelope.
    pub fn unversioned_to_bytes(&self) -> (r: Vec<u8>)
        ensures
            r@ == request_bytes(self@),
    {
        let mut fs: Vec<Vec<u8>> = Vec::new();
        fs.push(copy_bytes(&self.fleet_state_checksum));
        fs.push(encode_nodes(self.announce_nodes.as_slice()));
        assert(views(fs@) =~= request_fields(self@));
        encode_fields(&fs)
    }

    /// Reads the encoding without the envelope, written at minor version
    /// `minor_version`; `None` for a minor version this library does not know.
    pub fn unversioned_from_bytes(minor_version: u16, b: &[u8]) -> (r: Option<
        Result<Self, DeserializationError>,
    >)
        ensures
            minor_version != 0 ==> r is None,
            minor_version == 0 ==> match parse_request(b@) {
                Some(m) => r matches Some(Ok(x)) && x@ == m,
                None => r == Some(Err::<Self, DeserializationError>(DeserializationError::PayloadMalformed)),
            },
    {
        if minor_version != 0 {
            return None;
        }
        let fs = match decode_fields(b) {
            Some(fs) => fs,
            None => {
                return Some(Err(DeserializationError::PayloadMalformed));
            },
        };
        if fs.len() != 2 {
            return Some(Err(DeserializationError::PayloadMalformed));
        }
        assert(views(fs@)[0] == fs@[0]@ && views(fs@)[1] == fs@[1]@);
        match decode_nodes(fs[1].as_slice()) {
            Some(announce_nodes) => Some(
                Ok(MetadataRequest { fleet_state_checksum: copy_bytes(&fs[0]), announce_nodes }),
            ),
            None => Some(Err(DeserializationError::PayloadMalformed)),
        }
    }

    /// The message: envelope, then encoding.
    pub fn to_bytes(&self) -> (r: Vec<u8>)
        ensures
            r@ == envelope(request_brand(), 1, 0, request_bytes(self@)),
            request_fits(self@) ==> open_envelope(r@, request_brand(), 1, 0) == Ok::<
                Seq<u8>,
                DeserializationError,
            >(request_bytes(self@)) && parse_request(request_bytes(self@)) == Some(self@),
    {
        proof {
            if request_fits(self@) {
                lemma_envelope_round_trip(request_brand(), 1, 0, request_bytes(self@));
                lemma_request_round_trip(self@);
            }
        }
        let payload = self.unversioned_to_bytes();
        seal_envelope(Self::brand(), 1, 0, payload.as_slice())
    }

    /// Reads a message written by `to_bytes`.
    pub fn from_bytes(b: &[u8]) -> (r: Result<Self, DeserializationError>)
        ensures
            match open_envelope(b@, request_brand(), 1, 0) {
                Err(e) => r == Err::<Self, DeserializationError>(e),
                Ok(p) => match parse_request(p) {
                    Some(m) => r matches Ok(x) && x@ == m,
                    None => r == Err::<Self, DeserializationError>(DeserializationError::PayloadMalformed),
                },
            },
    {
        let (minor, payload) = match unseal_envelope(b, Self::brand(), 1, 0) {
            Ok(p) => p,
            Err(e) => {
                return Err(e);
            },
        };
        match Self::unversioned_from_bytes(minor, payload.as_slice()) {
            Some(r) => r,
            None => Err(DeserializationError::PayloadMalformed),
        }
    }
}

/// What a node vouches for in a metadata response.
#[derive(Debug, Clone, PartialEq)]
pub struct VerifiedMetadataResponse {
    /// The time of the most recent fleet state, the one the entries make up.
    pub timestamp_epoch: u32,
    /// The metadata to announce.
    pub announce_nodes: Vec<NodeMetadata>,
}

/// The value a `VerifiedMetadataResponse` holds.
pub struct VerifiedMetadataResponseView {
    pub timestamp_epoch: u32,
    pub announce_nodes: Seq<NodeMetadataView>,
}

impl View for VerifiedMetadataResponse {
    type V = VerifiedMetadataResponseView;

    open spec fn view(&self) -> VerifiedMetadataResponseView {
        VerifiedMetadataResponseView {
            timestamp_epoch: self.timestamp_epoch,
            announce_nodes: node_views(self.announce_nodes@),
        }
    }
}

pub open spec fn response_fields(m: VerifiedMetadataResponseView) -> Seq<Seq<u8>> {
    seq![be32(m.timestamp_epoch), nodes_bytes(m.announce_nodes)]
}

/// The canonical encoding of a response payload: the bytes that are signed.
pub open spec fn response_bytes(m: VerifiedMetadataResponseView) -> Seq<u8> {
    join(response_fields(m))
}

pub open spec fn response_fits(m: VerifiedMetadataResponseView) -> bool {
    fields_fit(response_fields(m)) && nodes_fit(m.announce_nodes)
}

/// The response payload whose encoding is `b`, where there is one.
pub open spec fn parse_response(b: Seq<u8>) -> Option<VerifiedMetadataResponseView> {
    match parse_fields(b) {
        Some(fs) => if fs.len() != 2 {
            None
        } else {
            match (parse_u32(fs[0]), parse_nodes(fs[1])) {
                (Some(timestamp_epoch), Some(announce_nodes)) => Some(
                    VerifiedMetadataResponseView { timestamp_epoch, announce_nodes },
                ),
                _ => None,
            }
        },
        None => None,
    }
}

pub proof fn lemma_response_round_trip(m: VerifiedMetadataResponseView)
    requires
        response_fits(m),
    ensures
        parse_response(response_bytes(m)) == Some(m),
{
    lemma_parse_join(response_fields(m));
    lemma_be32_round_trip(m.timestamp_epoch);
    lemma_nodes_round_trip(m.announce_nodes);
}

impl VerifiedMetadataResponse {
    /// A response payload with copies of the entries.
    pub fn new(timestamp_epoch: u32, announce_nodes: &[NodeMetadata]) -> (r: Self)
        ensures
            r.timestamp_epoch == timestamp_epoch,
            node_views(r.announce_nodes@) == node_views(announce_nodes@),
    {
        VerifiedMetadataResponse { timestamp_epoch, announce_nodes: duplicate_nodes(announce_nodes) }
    }

    /// A copy of the response payload.
    pub fn duplicate(&self) -> (r: Self)
        ensures
            r@ == self@,
    {
        VerifiedMetadataResponse {
            timestamp_epoch: self.timestamp_epoch,
            announce_nodes: duplicate_nodes(self.announce_nodes.as_slice()),
        }
    }

    /// The canonical encoding, which the signature covers.
    pub fn to_bytes(&self) -> (r: Vec<u8>)
        ensures
            r@ == response_bytes(self@),
    {
        let mut fs: Vec<Vec<u8>> = Vec::new();
        fs.push(encode_u32(self.timestamp_epoch));
        fs.push(encode_nodes(self.announce_nodes.as_slice()));
        assert(views(fs@) =~= response_fields(self@));
        encode_fields(&fs)
    }

    /// Reads a response payload from its canonical encoding.
    pub fn from_canonical_bytes(b: &[u8]) -> (r: Option<Self>)
        ensures
            match r {
                Some(x) => parse_response(b@) == Some(x@),
                None => parse_response(b@) is None,
            },
    {
        let fs = match decode_fields(b) {
            Some(fs) => fs,
            None => {
                return None;
            },
        };
        if fs.len() != 2 {
            return None;
        }
        assert(views(fs@)[0] == fs@[0]@ && views(fs@)[1] == fs@[1]@);
        let timestamp_epoch = match decode_u32(fs[0].as_slice()) {
            Some(t) => t,
            None => {
                return None;
            },
        };
        match decode_nodes(fs[1].as_slice()) {
            Some(announce_nodes) => Some(VerifiedMetadataResponse { timestamp_epoch, announce_nodes }),
            None => None,
        }
    }
}

/// A response of a node holding the metadata it knows, signed by that node.
#[derive(Debug, Clone, PartialEq)]
pub struct MetadataResponse {
    /// The signature over the payload's canonical encoding.
    pub signature: Vec<u8>,
    /// The signed payload.
    pub response: VerifiedMetadataResponse,
}

/// The value a `MetadataResponse` holds.
pub struct MetadataResponseView {
    pub signature: Seq<u8>,
    pub response: VerifiedMetadataResponseView,
}

impl View for MetadataResponse {
    type V = MetadataResponseView;

    open spec fn view(&self) -> MetadataResponseView {
        MetadataResponseView { signature: self.signature@, response: self.response@ }
    }
}

pub open spec fn signed_response_fields(m: MetadataResponseView) -> Seq<Seq<u8>> {
    seq![m.signature, response_bytes(m.response)]
}

/// The encoding of a signed response, without the envelope.
pub open spec fn signed_response_bytes(m: MetadataResponseView) -> Seq<u8> {
    join(signed_response_fields(m))
}

pub open spec fn signed_response_fits(m: MetadataResponseView) -> bool {
    fields_fit(signed_response_fields(m)) && response_fits(m.response)
}

/// The signed response whose encoding is `b`, where there is one.
pub open spec fn parse_signed_response(b: Seq<u8>) -> Option<MetadataResponseView> {
    match parse_fields(b) {
        Some(fs) => if fs.len() != 2 {
            None
        } else {
            match parse_response(fs[1]) {
                Some(response) => Some(MetadataResponseView { signature: fs[0], response }),
                None => None,
            }
        },
        None => None,
    }
}

pub proof fn lemma_signed_response_round_trip(m: MetadataResponseView)
    requires
        signed_response_fits(m),
    ensures
        parse_signed_response(signed_response_bytes(m)) == Some(m),
{
    lemma_parse_join(signed_response_fields(m));
    lemma_response_round_trip(m.response);
}

/// The brand of a metadata response, `MdRs`.
pub open spec fn response_brand() -> Seq<u8> {
    seq![77u8, 100u8, 82u8, 115u8]
}

impl MetadataResponse {
    /// Signs `response` with `signer` and keeps a copy of it.
    pub fn new(signer: &Signer, response: &VerifiedMetadataResponse) -> (r: Self)
        ensures
            r.response@ == response@,
            r.signature@.len() == 64,
            signature_valid(r.signature@, public_key_of(signer@), response_bytes(response@)),
    {
        let message = response.to_bytes();
        MetadataResponse { signature: signer.sign(message.as_slice()), response: response.duplicate() }
    }

    /// The payload, where the signature covers it under `verifying_pk`.
    pub fn verify(&self, verifying_pk: &PublicKey) -> (r: Option<VerifiedMetadataResponse>)
        ensures
            r is Some <==> signature_valid(
                self.signature@,
                verifying_pk@,
                response_bytes(self.response@),
            ),
            r matches Some(x) ==> x@ == self.response@,
    {
        let message = self.response.to_bytes();
        if verify(self.signature.as_slice(), verifying_pk.as_slice(), message.as_slice()) {
            Some(self.response.duplicate())
        } else {
            None
        }
    }

    /// The brand that opens this type's messages.
    pub fn brand() -> (r: [u8; 4])
        ensures
            r@ == response_brand(),
    {
        let r: [u8; 4] = [77, 100, 82, 115];
        assert(r@ =~= response_brand());
        r
    }

    /// The version this library writes and reads: major, then minor.
    pub fn version() -> (r: (u16, u16))
        ensures
            r == (1u16, 0u16),
    {
        (1, 0)
    }

    /// The encoding without the envelope.
    pub fn unversioned_to_bytes(&self) -> (r: Vec<u8>)
        ensures
            r@ == signed_response_bytes(self@),
    {
        let mut fs: Vec<Vec<u8>> = Vec::new();
        fs.push(copy_bytes(&self.signature));
        fs.push(self.response.to_bytes());
        assert(views(fs@) =~= signed_response_fields(self@));
        encode_fields(&fs)
    }

    /// Reads the encoding without the envelope, written at minor version
    /// `minor_version`; `None` for a minor version this library does not know.
    pub fn unversioned_from_bytes(minor_version: u16, b: &[u8]) -> (r: Option<
        Result<Self, DeserializationError>,
    >)
        ensures
            minor_version != 0 ==> r is None,
            minor_version == 0 ==> match parse_signed_response(b@) {
                Some(m) => r matches Some(Ok(x)) && x@ == m,
                None => r == Some(Err::<Self, DeserializationError>(DeserializationError::PayloadMalformed)),
            },
    {
        if minor_version != 0 {
            return None;
        }
        let fs = match decode_fields(b) {
            Some(fs) => fs,
            None => {
                return Some(Err(DeserializationError::PayloadMalformed));
            },
        };
        if fs.len() != 2 {
            return Some(Err(DeserializationError::PayloadMalformed));
        }
        assert(views(fs@)[0] == fs@[0]@ && views(fs@)[1] == fs@[1]@);
        match VerifiedMetadataResponse::from_canonical_bytes(fs[1].as_slice()) {
            Some(response) => Some(Ok(MetadataResponse { signature: copy_bytes(&fs[0]), response })),
            None => Some(Err(DeserializationError::PayloadMalformed)),
        }
    }

    /// The message: envelope, then encoding.
    pub fn to_bytes(&self) -> (r: Vec<u8>)
        ensures
            r@ == envelope(response_brand(), 1, 0, signed_response_bytes(self@)),
            signed_response_fits(self@) ==> open_envelope(r@, response_brand(), 1, 0) == Ok::<
                Seq<u8>,
                DeserializationError,
            >(signed_response_bytes(self@)) && parse_signed_response(signed_response_bytes(self@)) == Some(self@),
    {
        proof {
            if signed_response_fits(self@) {
                lemma_envelope_round_trip(response_brand(), 1, 0, signed_response_bytes(self@));
                lemma_signed_response_round_trip(self@);
            }
        }
        let payload = self.unversioned_to_bytes();
        seal_envelope(Self::brand(), 1, 0, payload.as_slice())
    }

    /// Reads a message written by `to_bytes`.
    pub fn from_bytes(b: &[u8]) -> (r: Result<Self, DeserializationError>)
        ensures
            match open_envelope(b@, response_brand(), 1, 0) {
                Err(e) => r == Err::<Self, DeserializationError>(e),
                Ok(p) => match parse_signed_response(p) {
                    Some(m) => r matches Ok(x) && x@ == m,
                    None => r == Err::<Self, DeserializationError>(DeserializationError::PayloadMalformed),
                },
            },
    {
        let (minor, payload) = match unseal_envelope(b, Self::brand(), 1, 0) {
            Ok(p) => p,
            Err(e) => {
                return Err(e);
            },
        };
        match Self::unversioned_from_bytes(minor, payload.as_slice()) {
            Some(r) => r,
            None => Err(DeserializationError::PayloadMalformed),
        }
    }
}

} // verus!
