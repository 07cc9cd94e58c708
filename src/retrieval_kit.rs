//! Retrieval kits: a capsule, with the addresses of the nodes already asked to
//! re-encrypt it.

use crate::codec::{
    copy_bytes, decode_fields, encode_fields, fields_fit, join, lemma_parse_join, parse_fields, views,
};
use crate::node_metadata::Address;
use crate::versioning::{
    lemma_envelope_round_trip, envelope, open_envelope, seal_envelope, unseal_envelope, DeserializationError,
};
use vstd::prelude::*;

verus! {

/// An encrypted message: the capsule of its encryption and its ciphertext.
#[derive(Debug, Clone, PartialEq)]
pub struct MessageKit {
    /// The capsule of the encryption.
    pub capsule: Vec<u8>,
    /// The encrypted message.
    pub ciphertext: Vec<u8>,
}

/// What a requester needs to ask nodes for re-encryptions of one capsule.
#[derive(Debug, PartialEq)]
pub struct RetrievalKit {
    capsule: Vec<u8>,
    queried_addresses: Vec<Address>,
}

/// The byte views of some addresses.
pub open spec fn address_views(a: Seq<Address>) -> Seq<Seq<u8>> {
    a.map_values(|x: Address| x@)
}

impl View for RetrievalKit {
    /// The capsule, and the addresses asked in the order they are listed.
    type V = (Seq<u8>, Seq<Seq<u8>>);

    closed spec fn view(&self) -> (Seq<u8>, Seq<Seq<u8>>) {
        (self.capsule@, address_views(self.queried_addresses@))
    }
}

impl RetrievalKit {
    /// The set of addresses already asked.
    pub open spec fn queried(&self) -> Set<Seq<u8>> {
        self@.1.to_set()
    }

    /// No address is listed twice, and the addresses are in increasing order.
    pub open spec fn wf(&self) -> bool {
        self@.1.no_duplicates() && sorted(self@.1)
    }

    #[verifier::type_invariant]
    spec fn inv(&self) -> bool {
        self.wf()
    }

    /// The capsule to re-encrypt.
    pub fn capsule(&self) -> (r: &Vec<u8>)
        ensures
            r@ == self@.0,
    {
        &self.capsule
    }

    /// The addresses already asked, each once, in increasing order.
    pub fn queried_addresses(&self) -> (r: &Vec<Address>)
        ensures
            address_views(r@) == self@.1,
            self.wf(),
    {
        proof {
            use_type_invariant(self);
        }
        &self.queried_addresses
    }
}

/// Lexicographic order on byte strings.
pub open spec fn lex_lt(a: Seq<u8>, b: Seq<u8>) -> bool
    decreases a.len(),
{
    if a.len() == 0 {
        b.len() > 0
    } else if b.len() == 0 {
        false
    } else if a[0] != b[0] {
        a[0] < b[0]
    } else {
        lex_lt(a.drop_first(), b.drop_first())
    }
}

/// Each byte string comes before the next.
pub open spec fn sorted(vs: Seq<Seq<u8>>) -> bool {
    forall|k: int| 0 <= k < vs.len() - 1 ==> #[trigger] lex_lt(vs[k], vs[k + 1])
}

proof fn lemma_lex_total(a: Seq<u8>, b: Seq<u8>)
    requires
        a != b,
    ensures
        lex_lt(a, b) || lex_lt(b, a),
    decreases a.len(),
{
    if a.len() > 0 && b.len() > 0 && a[0] == b[0] {
        if a.drop_first() == b.drop_first() {
            assert(a =~= seq![a[0]] + a.drop_first());
            assert(b =~= seq![b[0]] + b.drop_first());
        } else {
            lemma_lex_total(a.drop_first(), b.drop_first());
        }
    } else if a.len() == 0 && b.len() == 0 {
        assert(a =~= b);
    }
}

/// Whether `a` comes before `b`.
fn bytes_lt(a: &Vec<u8>, b: &Vec<u8>) -> (r: bool)
    ensures
        r == lex_lt(a@, b@),
{
    let mut i: usize = 0;
    assert(a@.skip(0) =~= a@ && b@.skip(0) =~= b@);
    loop
        invariant
            i <= a@.len(),
            i <= b@.len(),
            lex_lt(a@, b@) == lex_lt(a@.skip(i as int), b@.skip(i as int)),
        decreases a@.len() - i,
    {
        let ghost sa = a@.skip(i as int);
        let ghost sb = b@.skip(i as int);
        if i == a.len() {
            return i < b.len();
        }
        if i == b.len() {
            return false;
        }
        assert(sa[0] == a@[i as int] && sb[0] == b@[i as int]);
        if a[i] != b[i] {
            return a[i] < b[i];
        }
        assert(sa.drop_first() =~= a@.skip(i + 1));
        assert(sb.drop_first() =~= b@.skip(i + 1));
        i += 1;
    }
}

proof fn lemma_insert_to_set(vs: Seq<Seq<u8>>, j: int, x: Seq<u8>)
    requires
        0 <= j <= vs.len(),
    ensures
        vs.insert(j, x).to_set() == vs.to_set().insert(x),
{
    vs.insert_ensures(j, x);
    let w = vs.insert(j, x);
    assert forall|y: Seq<u8>| #[trigger] w.contains(y) <==> vs.to_set().insert(x).contains(y) by {
        if w.contains(y) {
            let k = choose|k: int| 0 <= k < w.len() && w[k] == y;
            if k > j {
                assert(w[k] == vs[k - 1]);
            }
        }
        if vs.contains(y) {
            let k = choose|k: int| 0 <= k < vs.len() && vs[k] == y;
            if k < j {
                assert(w[k] == y);
            } else {
                assert(w[k + 1] == y);
            }
        }
        if y == x {
            assert(w[j] == y);
        }
    }
    assert(w.to_set() =~= vs.to_set().insert(x));
}

/// Whether two byte strings are equal.
fn same_bytes(a: &Vec<u8>, b: &Vec<u8>) -> (r: bool)
    ensures
        r == (a@ == b@),
{
    if a.len() != b.len() {
        return false;
    }
    let mut i: usize = 0;
    while i < a.len()
        invariant
            a@.len() == b@.len(),
            i <= a@.len(),
            a@.subrange(0, i as int) == b@.subrange(0, i as int),
        decreases a@.len() - i,
    {
        if a[i] != b[i] {
            assert(a@.subrange(0, i + 1)[i as int] != b@.subrange(0, i + 1)[i as int]);
            return false;
        }
        i += 1;
        assert(a@.subrange(0, i as int) =~= b@.subrange(0, i as int - 1).push(b@[i - 1]));
    }
    assert(a@ =~= a@.subrange(0, i as int));
    assert(b@ =~= b@.subrange(0, i as int));
    true
}

/// Whether `a` is among `list`.
fn contains_address(list: &Vec<Address>, a: &Address) -> (r: bool)
    ensures
        r == address_views(list@).contains(a@),
{
    let mut i: usize = 0;
    while i < list.len()
        invariant
            i <= list@.len(),
            forall|j: int| 0 <= j < i ==> list@[j]@ != a@,
        decreases list@.len() - i,
    {
        if same_bytes(&list[i], a) {
            assert(address_views(list@)[i as int] == a@);
            return true;
        }
        i += 1;
    }
    assert forall|j: int| 0 <= j < address_views(list@).len() implies address_views(list@)[j] != a@ by {
        assert(address_views(list@)[j] == list@[j]@);
    }
    false
}

/// The addresses of `addresses`, each once, in increasing order.
fn distinct_addresses(addresses: &[Address]) -> (r: Vec<Address>)
    ensures
        address_views(r@).to_set() == address_views(addresses@).to_set(),
        address_views(r@).no_duplicates(),
        sorted(address_views(r@)),
{
    let mut r: Vec<Address> = Vec::new();
    let mut i: usize = 0;
    while i < addresses.len()
        invariant
            i <= addresses@.len(),
            address_views(r@).to_set() == address_views(addresses@.take(i as int)).to_set(),
            address_views(r@).no_duplicates(),
            sorted(address_views(r@)),
        decreases addresses@.len() - i,
    {
        let a = &addresses[i];
        let ghost before = address_views(r@);
        assert(addresses@.take(i + 1) =~= addresses@.take(i as int).push(addresses@[i as int]));
        assert(address_views(addresses@.take(i + 1)) =~= address_views(addresses@.take(i as int)).push(a@));
        proof {
            address_views(addresses@.take(i as int)).lemma_push_to_set_commute(a@);
        }
        if !contains_address(&r, a) {
            let mut j: usize = 0;
            let mut searching = true;
            while searching && j < r.len()
                invariant
                    before == address_views(r@),
                    !before.contains(a@),
                    j <= r@.len(),
                    forall|k: int| 0 <= k < j ==> lex_lt(#[trigger] r@[k]@, a@),
                    !searching ==> j < r@.len() && !lex_lt(r@[j as int]@, a@),
                decreases r@.len() - j + (if searching { 1int } else { 0int }),
            {
                if bytes_lt(&r[j], a) {
                    j += 1;
                } else {
                    searching = false;
                }
            }
            proof {
                if j < r@.len() {
                    assert(before[j as int] == r@[j as int]@);
                    assert(before[j as int] != a@);
                    lemma_lex_total(a@, before[j as int]);
                }
                before.insert_ensures(j as int, a@);
                lemma_insert_to_set(before, j as int, a@);
            }
            let c = copy_bytes(a);
            let ghost old_r = r@;
            r.insert(j, c);
            proof {
                old_r.insert_ensures(j as int, c);
                assert(address_views(r@) =~= before.insert(j as int, a@));
                let w = before.insert(j as int, a@);
                assert forall|x: int, y: int| 0 <= x < w.len() && 0 <= y < w.len() && x != y implies w[x] != w[y] by {
                    if x == j as int {
                        let yy = if y < j { y } else { y - 1 };
                        assert(w[y] == before[yy] && before.contains(before[yy]));
                    } else if y == j as int {
                        let xx = if x < j { x } else { x - 1 };
                        assert(w[x] == before[xx] && before.contains(before[xx]));
                    } else {
                        let xx = if x < j { x } else { x - 1 };
                        let yy = if y < j { y } else { y - 1 };
                        assert(w[x] == before[xx] && w[y] == before[yy]);
                    }
                }
                assert forall|k: int| 0 <= k < w.len() - 1 implies #[trigger] lex_lt(w[k], w[k + 1]) by {
                    if k + 1 < j {
                        assert(w[k] == before[k] && w[k + 1] == before[k + 1]);
                    } else if k + 1 == j {
                        assert(w[k] == before[k] && before[k] == r@[k]@);
                        assert(lex_lt(old_r[k]@, a@));
                    } else if k == j {
                        assert(w[k + 1] == before[k]);
                    } else {
                        assert(w[k] == before[k - 1] && w[k + 1] == before[k]);
                    }
                }
            }
        } else {
            assert(before.to_set().contains(a@));
            assert(before.to_set().insert(a@) =~= before.to_set());
        }
        i += 1;
    }
    assert(addresses@.take(addresses@.len() as int) =~= addresses@);
    r
}

pub open spec fn kit_fields(capsule: Seq<u8>, addresses: Seq<Seq<u8>>) -> Seq<Seq<u8>> {
    seq![capsule, join(addresses)]
}

/// The encoding of a kit with `capsule` and `addresses`, without the envelope.
pub open spec fn kit_bytes(capsule: Seq<u8>, addresses: Seq<Seq<u8>>) -> Seq<u8> {
    join(kit_fields(capsule, addresses))
}

pub open spec fn kit_fits(capsule: Seq<u8>, addresses: Seq<Seq<u8>>) -> bool {
    fields_fit(kit_fields(capsule, addresses)) && fields_fit(addresses)
}

/// The capsule and the listed addresses of the kit whose encoding is `b`, where
/// there is one.
pub open spec fn parse_kit(b: Seq<u8>) -> Option<(Seq<u8>, Seq<Seq<u8>>)> {
    match parse_fields(b) {
        Some(fs) => if fs.len() != 2 {
            None
        } else {
            match parse_fields(fs[1]) {
                Some(addresses) => Some((fs[0], addresses)),
                None => None,
            }
        },
        None => None,
    }
}

pub proof fn lemma_kit_round_trip(capsule: Seq<u8>, addresses: Seq<Seq<u8>>)
    requires
        kit_fits(capsule, addresses),
    ensures
        parse_kit(kit_bytes(capsule, addresses)) == Some((capsule, addresses)),
{
    lemma_parse_join(kit_fields(capsule, addresses));
    lemma_parse_join(addresses);
}

/// The brand of a retrieval kit, `RKit`.
pub open spec fn kit_brand() -> Seq<u8> {
    seq![82u8, 75u8, 105u8, 116u8]
}

impl RetrievalKit {
    /// A kit for the capsule of `message_kit`, with no address asked yet.
    pub fn from_message_kit(message_kit: &MessageKit) -> (r: Self)
        ensures
            r@.0 == message_kit.capsule@,
            r.queried() == Set::<Seq<u8>>::empty(),
            r.wf(),
    {
        let r = RetrievalKit { capsule: copy_bytes(&message_kit.capsule), queried_addresses: Vec::new() };
        assert(r.queried() =~= Set::<Seq<u8>>::empty());
        r
    }

    /// A kit for `capsule` that records `queried_addresses` as asked; an address
    /// given twice is recorded once.
    pub fn new(capsule: &Vec<u8>, queried_addresses: &[Address]) -> (r: Self)
        ensures
            r@.0 == capsule@,
            r.queried() == address_views(queried_addresses@).to_set(),
            r.wf(),
    {
        RetrievalKit { capsule: copy_bytes(capsule), queried_addresses: distinct_addresses(queried_addresses) }
    }

    /// The brand that opens this type's messages.
    pub fn brand() -> (r: [u8; 4])
        ensures
            r@ == kit_brand(),
    {
        let r: [u8; 4] = [82, 75, 105, 116];
        assert(r@ =~= kit_brand());
        r
    }

    /// The version this library writes and reads: major, then minor.
    pub fn version() -> (r: (u16, u16))
        ensures
            r == (1u16, 0u16),
    {
        (1, 0)
    }

    /// The encoding without the envelope.
    pub fn unversioned_to_bytes(&self) -> (r: Vec<u8>)
        ensures
            r@ == kit_bytes(self@.0, self@.1),
    {
        let mut fs: Vec<Vec<u8>> = Vec::new();
        fs.push(copy_bytes(&self.capsule));
        assert(views(self.queried_addresses@) =~= self@.1);
        fs.push(encode_fields(&self.queried_addresses));
        assert(views(fs@) =~= kit_fields(self@.0, self@.1));
        encode_fields(&fs)
    }

    /// Reads the encoding without the envelope, written at minor version
    /// `minor_version`; `None` for a minor version this library does not know.
    pub fn unversioned_from_bytes(minor_version: u16, b: &[u8]) -> (r: Option<
        Result<Self, DeserializationError>,
    >)
        ensures
            minor_version != 0 ==> r is None,
            minor_version == 0 ==> match parse_kit(b@) {
                Some((capsule, addresses)) => r matches Some(Ok(x)) && x@.0 == capsule
                    && x.queried() == addresses.to_set() && x.wf(),
                None => r == Some(Err::<Self, DeserializationError>(DeserializationError::PayloadMalformed)),
            },
    {
        if minor_version != 0 {
            return None;
        }
        let fs = match decode_fields(b) {
            Some(fs) => fs,
            None => {
                return Some(Err(DeserializationError::PayloadMalformed));
            },
        };
        if fs.len() != 2 {
            return Some(Err(DeserializationError::PayloadMalformed));
        }
        assert(views(fs@)[0] == fs@[0]@ && views(fs@)[1] == fs@[1]@);
        match decode_fields(fs[1].as_slice()) {
            Some(addresses) => {
                assert(views(addresses@) =~= address_views(addresses@));
                Some(Ok(RetrievalKit::new(&fs[0], addresses.as_slice())))
            },
            None => Some(Err(DeserializationError::PayloadMalformed)),
        }
    }

    /// The message: envelope, then encoding.
    pub fn to_bytes(&self) -> (r: Vec<u8>)
        ensures
            r@ == envelope(kit_brand(), 1, 0, kit_bytes(self@.0, self@.1)),
            kit_fits(self@.0, self@.1) ==> open_envelope(
                r@,
                kit_brand(),
                1,
                0,
            ) == Ok::<Seq<u8>, DeserializationError>(
                kit_bytes(self@.0, self@.1),
            ) && parse_kit(kit_bytes(self@.0, self@.1)) == Some(
                (self@.0, self@.1),
            ),
    {
        proof {
            if kit_fits(self@.0, self@.1) {
                lemma_envelope_round_trip(kit_brand(), 1, 0, kit_bytes(self@.0, self@.1));
                lemma_kit_round_trip(self@.0, self@.1);
            }
        }
        let payload = self.unversioned_to_bytes();
        seal_envelope(Self::brand(), 1, 0, payload.as_slice())
    }

    /// Reads a message written by `to_bytes`.
    pub fn from_bytes(b: &[u8]) -> (r: Result<Self, DeserializationError>)
        ensures
            match open_envelope(b@, kit_brand(), 1, 0) {
                Err(e) => r == Err::<Self, DeserializationError>(e),
                Ok(p) => match parse_kit(p) {
                    Some((capsule, addresses)) => r matches Ok(x) && x@.0 == capsule
                        && x.queried() == addresses.to_set() && x.wf(),
                    None => r == Err::<Self, DeserializationError>(DeserializationError::PayloadMalformed),
                },
            },
    {
        let (minor, payload) = match unseal_envelope(b, Self::brand(), 1, 0) {
            Ok(p) => p,
            Err(e) => {
                return Err(e);
            },
        };
        match Self::unversioned_from_bytes(minor, payload.as_slice()) {
            Some(r) => r,
            None => Err(DeserializationError::PayloadMalformed),
        }
    }
}

/// Recording the same addresses, in any order and with any repeats, gives the
/// same set of queried addresses.
pub proof fn lemma_accumulation(first: Seq<Seq<u8>>, second: Seq<Seq<u8>>)
    requires
        forall|a: Seq<u8>| first.contains(a) <==> second.contains(a),
    ensures
        first.to_set() == second.to_set(),
{
    assert(first.to_set() =~= second.to_set());
}

} // verus!
