//! Canonical encoding of a message payload as a sequence of length-prefixed
//! fields, and of the plain values (integers, text, optional blobs) that a field
//! may hold.

use vstd::prelude::*;
use vstd::utf8::{char_is_scalar, char_u32_cast, is_scalar};

verus! {

/// Big-endian bytes of a `u64`.
#[verifier::opaque]
pub open spec fn be64(x: u64) -> Seq<u8> {
    seq![
        ((x >> 56u64) & 0xffu64) as u8,
        ((x >> 48u64) & 0xffu64) as u8,
        ((x >> 40u64) & 0xffu64) as u8,
        ((x >> 32u64) & 0xffu64) as u8,
        ((x >> 24u64) & 0xffu64) as u8,
        ((x >> 16u64) & 0xffu64) as u8,
        ((x >> 8u64) & 0xffu64) as u8,
        (x & 0xffu64) as u8,
    ]
}

/// The `u64` whose big-endian bytes are the first eight of `s`.
#[verifier::opaque]
pub open spec fn from_be64(s: Seq<u8>) -> u64 {
    ((s[0] as u64) << 56u64) | ((s[1] as u64) << 48u64) | ((s[2] as u64) << 40u64) | ((
    s[3] as u64) << 32u64) | ((s[4] as u64) << 24u64) | ((s[5] as u64) << 16u64) | ((s[6] as u64)
        << 8u64) | (s[7] as u64)
}

/// Big-endian bytes of a `u32`.
#[verifier::opaque]
pub open spec fn be32(x: u32) -> Seq<u8> {
    seq![
        ((x >> 24u32) & 0xffu32) as u8,
        ((x >> 16u32) & 0xffu32) as u8,
        ((x >> 8u32) & 0xffu32) as u8,
        (x & 0xffu32) as u8,
    ]
}

/// The `u32` whose big-endian bytes are the first four of `s`.
#[verifier::opaque]
pub open spec fn from_be32(s: Seq<u8>) -> u32 {
    ((s[0] as u32) << 24u32) | ((s[1] as u32) << 16u32) | ((s[2] as u32) << 8u32) | (s[3] as u32)
}

pub proof fn lemma_be64_round_trip(x: u64)
    ensures
        be64(x).len() == 8,
        from_be64(be64(x)) == x,
{
    reveal(be64);
    reveal(from_be64);
    assert(((((x >> 56u64) & 0xffu64) as u8 as u64) << 56u64) | ((((x >> 48u64) & 0xffu64) as u8
        as u64) << 48u64) | ((((x >> 40u64) & 0xffu64) as u8 as u64) << 40u64) | ((((x >> 32u64)
        & 0xffu64) as u8 as u64) << 32u64) | ((((x >> 24u64) & 0xffu64) as u8 as u64) << 24u64)
        | ((((x >> 16u64) & 0xffu64) as u8 as u64) << 16u64) | ((((x >> 8u64) & 0xffu64) as u8
        as u64) << 8u64) | ((x & 0xffu64) as u8 as u64) == x) by (bit_vector);
}

pub proof fn lemma_be32_round_trip(x: u32)
    ensures
        be32(x).len() == 4,
        from_be32(be32(x)) == x,
{
    reveal(be32);
    reveal(from_be32);
    assert(((((x >> 24u32) & 0xffu32) as u8 as u32) << 24u32) | ((((x >> 16u32) & 0xffu32) as u8
        as u32) << 16u32) | ((((x >> 8u32) & 0xffu32) as u8 as u32) << 8u32) | ((x & 0xffu32) as u8
        as u32) == x) by (bit_vector);
}

/// Appends the big-endian bytes of `x`.
pub fn push_be64(out: &mut Vec<u8>, x: u64)
    ensures
        final(out)@ == old(out)@ + be64(x),
{
    reveal(be64);
    out.push(((x >> 56u64) & 0xffu64) as u8);
    out.push(((x >> 48u64) & 0xffu64) as u8);
    out.push(((x >> 40u64) & 0xffu64) as u8);
    out.push(((x >> 32u64) & 0xffu64) as u8);
    out.push(((x >> 24u64) & 0xffu64) as u8);
    out.push(((x >> 16u64) & 0xffu64) as u8);
    out.push(((x >> 8u64) & 0xffu64) as u8);
    out.push((x & 0xffu64) as u8);
    assert(out@ =~= old(out)@ + be64(x));
}

/// Appends the big-endian bytes of `x`.
pub fn push_be32(out: &mut Vec<u8>, x: u32)
    ensures
        final(out)@ == old(out)@ + be32(x),
{
    reveal(be32);
    out.push(((x >> 24u32) & 0xffu32) as u8);
    out.push(((x >> 16u32) & 0xffu32) as u8);
    out.push(((x >> 8u32) & 0xffu32) as u8);
    out.push((x & 0xffu32) as u8);
    assert(out@ =~= old(out)@ + be32(x));
}

/// Reads the big-endian `u64` at `pos`.
pub fn read_be64(b: &[u8], pos: usize) -> (r: u64)
    requires
        pos + 8 <= b@.len(),
    ensures
        r == from_be64(b@.subrange(pos as int, pos + 8)),
{
    reveal(from_be64);
    ((b[pos] as u64) << 56u64) | ((b[pos + 1] as u64) << 48u64) | ((b[pos + 2] as u64) << 40u64)
        | ((b[pos + 3] as u64) << 32u64) | ((b[pos + 4] as u64) << 24u64) | ((b[pos + 5] as u64)
        << 16u64) | ((b[pos + 6] as u64) << 8u64) | (b[pos + 7] as u64)
}

/// Reads the big-endian `u32` at `pos`.
pub fn read_be32(b: &[u8], pos: usize) -> (r: u32)
    requires
        pos + 4 <= b@.len(),
    ensures
        r == from_be32(b@.subrange(pos as int, pos + 4)),
{
    reveal(from_be32);
    ((b[pos] as u32) << 24u32) | ((b[pos + 1] as u32) << 16u32) | ((b[pos + 2] as u32) << 8u32)
        | (b[pos + 3] as u32)
}

/// One field: its length as eight big-endian bytes, then its bytes.
pub open spec fn blob(f: Seq<u8>) -> Seq<u8> {
    be64(f.len() as u64) + f
}

/// The fields one after another, each length-prefixed.
pub open spec fn join(fs: Seq<Seq<u8>>) -> Seq<u8>
    decreases fs.len(),
{
    if fs.len() == 0 {
        Seq::empty()
    } else {
        blob(fs[0]) + join(fs.drop_first())
    }
}

/// Every field is short enough for its length prefix.
pub open spec fn fields_fit(fs: Seq<Seq<u8>>) -> bool {
    forall|i: int| 0 <= i < fs.len() ==> #[trigger] fs[i].len() <= u64::MAX
}

/// Splits bytes into length-prefixed fields; `None` where a prefix is cut short
/// or claims more bytes than remain.
pub open spec fn parse_fields(b: Seq<u8>) -> Option<Seq<Seq<u8>>>
    decreases b.len(),
{
    if b.len() == 0 {
        Some(Seq::empty())
    } else if b.len() < 8 {
        None
    } else {
        let n = from_be64(b.subrange(0, 8)) as int;
        if n > b.len() - 8 {
            None
        } else {
            match parse_fields(b.subrange(8 + n, b.len() as int)) {
                Some(rest) => Some(seq![b.subrange(8, 8 + n)] + rest),
                None => None,
            }
        }
    }
}

pub proof fn lemma_join_push(fs: Seq<Seq<u8>>, f: Seq<u8>)
    ensures
        join(fs.push(f)) == join(fs) + blob(f),
    decreases fs.len(),
{
    if fs.len() == 0 {
        assert(fs.push(f).drop_first() =~= Seq::<Seq<u8>>::empty());
        assert(fs.push(f)[0] == f);
        assert(join(Seq::<Seq<u8>>::empty()) == Seq::<u8>::empty());
        assert(join(fs.push(f)) =~= join(fs) + blob(f));
    } else {
        lemma_join_push(fs.drop_first(), f);
        assert(fs.push(f).drop_first() =~= fs.drop_first().push(f));
        assert(fs.push(f)[0] == fs[0]);
        assert(join(fs.push(f)) =~= join(fs) + blob(f));
    }
}

/// Splitting the joined fields gives the fields back.
pub proof fn lemma_parse_join(fs: Seq<Seq<u8>>)
    requires
        fields_fit(fs),
    ensures
        parse_fields(join(fs)) == Some(fs),
    decreases fs.len(),
{
    if fs.len() > 0 {
        let f = fs[0];
        let rest = fs.drop_first();
        assert(f.len() <= u64::MAX);
        assert forall|i: int| 0 <= i < rest.len() implies #[trigger] rest[i].len() <= u64::MAX by {
            assert(rest[i] == fs[i + 1]);
        }
        lemma_parse_join(rest);
        lemma_be64_round_trip(f.len() as u64);
        let b = join(fs);
        assert(b == be64(f.len() as u64) + f + join(rest));
        assert(b.subrange(0, 8) =~= be64(f.len() as u64));
        assert(from_be64(b.subrange(0, 8)) as int == f.len());
        assert(b.subrange(8, 8 + f.len() as int) =~= f);
        assert(b.subrange(8 + f.len() as int, b.len() as int) =~= join(rest));
        assert(seq![f] + rest =~= fs);
    }
}

/// The byte views of a sequence of byte vectors.
pub open spec fn views(fs: Seq<Vec<u8>>) -> Seq<Seq<u8>> {
    fs.map_values(|v: Vec<u8>| v@)
}

/// `parsed` with `prefix` in front, where it is present.
pub open spec fn after<T>(prefix: Seq<T>, parsed: Option<Seq<T>>) -> Option<Seq<T>> {
    match parsed {
        Some(rest) => Some(prefix + rest),
        None => None,
    }
}

/// Copies `b[start..end]`.
pub fn copy_range(b: &[u8], start: usize, end: usize) -> (r: Vec<u8>)
    requires
        start <= end <= b@.len(),
    ensures
        r@ == b@.subrange(start as int, end as int),
{
    let mut r: Vec<u8> = Vec::new();
    let mut i: usize = start;
    while i < end
        invariant
            start <= i <= end <= b@.len(),
            r@ == b@.subrange(start as int, i as int),
        decreases end - i,
    {
        r.push(b[i]);
        i += 1;
        assert(r@ =~= b@.subrange(start as int, i as int));
    }
    r
}

/// Appends `f` as one length-prefixed field.
pub fn push_blob(out: &mut Vec<u8>, f: &[u8])
    ensures
        final(out)@ == old(out)@ + blob(f@),
{
    push_be64(out, f.len() as u64);
    let ghost start = out@;
    let mut i: usize = 0;
    while i < f.len()
        invariant
            0 <= i <= f@.len(),
            out@ == start + f@.subrange(0, i as int),
        decreases f@.len() - i,
    {
        out.push(f[i]);
        i += 1;
        assert(out@ =~= start + f@.subrange(0, i as int));
    }
    assert(f@.subrange(0, f@.len() as int) =~= f@);
    assert(out@ =~= old(out)@ + blob(f@));
}

/// Joins the fields, each length-prefixed.
pub fn encode_fields(fs: &Vec<Vec<u8>>) -> (r: Vec<u8>)
    ensures
        r@ == join(views(fs@)),
{
    let mut out: Vec<u8> = Vec::new();
    let mut i: usize = 0;
    while i < fs.len()
        invariant
            0 <= i <= fs@.len(),
            out@ == join(views(fs@).take(i as int)),
        decreases fs@.len() - i,
    {
        proof {
            lemma_join_push(views(fs@).take(i as int), fs@[i as int]@);
            assert(views(fs@).take(i as int).push(fs@[i as int]@) =~= views(fs@).take(i + 1));
        }
        push_blob(&mut out, fs[i].as_slice());
        i += 1;
    }
    assert(views(fs@).take(fs@.len() as int) =~= views(fs@));
    out
}

/// Splits `b` into its length-prefixed fields.
pub fn decode_fields(b: &[u8]) -> (r: Option<Vec<Vec<u8>>>)
    ensures
        match r {
            Some(fs) => parse_fields(b@) == Some(views(fs@)),
            None => parse_fields(b@) is None,
        },
{
    let mut acc: Vec<Vec<u8>> = Vec::new();
    let mut pos: usize = 0;
    let len = b.len();
    assert(b@.subrange(0, len as int) =~= b@);
    while pos < len
        invariant
            len == b@.len(),
            pos <= len,
            parse_fields(b@) == after(views(acc@), parse_fields(b@.subrange(pos as int, len as int))),
        decreases len - pos,
    {
        let ghost s = b@.subrange(pos as int, len as int);
        if len - pos < 8 {
            return None;
        }
        let n = read_be64(b, pos);
        assert(s.subrange(0, 8) =~= b@.subrange(pos as int, pos + 8));
        if n > (len - pos - 8) as u64 {
            return None;
        }
        let n = n as usize;
        let f = copy_range(b, pos + 8, pos + 8 + n);
        assert(s.subrange(8, 8 + n) =~= f@);
        assert(s.subrange(8 + n, s.len() as int) =~= b@.subrange(pos + 8 + n, len as int));
        let ghost old_acc = views(acc@);
        acc.push(f);
        assert(views(acc@) =~= old_acc.push(f@));
        proof {
            match parse_fields(b@.subrange(pos + 8 + n, len as int)) {
                Some(rest) => {
                    assert(old_acc + (seq![f@] + rest) =~= old_acc.push(f@) + rest);
                },
                None => {},
            }
        }
        pos = pos + 8 + n;
    }
    assert(b@.subrange(pos as int, len as int) =~= Seq::<u8>::empty());
    assert(views(acc@) + Seq::<Seq<u8>>::empty() =~= views(acc@));
    Some(acc)
}

/// A `u32` value as a field.
pub open spec fn parse_u32(f: Seq<u8>) -> Option<u32> {
    if f.len() == 4 {
        Some(from_be32(f))
    } else {
        None
    }
}

/// Reads a `u32` field.
pub fn decode_u32(f: &[u8]) -> (r: Option<u32>)
    ensures
        r == parse_u32(f@),
{
    if f.len() == 4 {
        assert(f@.subrange(0, 4) =~= f@);
        Some(read_be32(f, 0))
    } else {
        None
    }
}

/// Writes a `u32` field.
pub fn encode_u32(x: u32) -> (r: Vec<u8>)
    ensures
        r@ == be32(x),
        parse_u32(r@) == Some(x),
{
    let mut r: Vec<u8> = Vec::new();
    push_be32(&mut r, x);
    proof {
        lemma_be32_round_trip(x);
        assert(r@ =~= be32(x));
    }
    r
}

/// The character with scalar value `i`, where there is one.
pub open spec fn char_of(i: u32) -> Option<char> {
    if is_scalar(i) {
        Some(i as char)
    } else {
        None
    }
}

/// Relies on `char::from_u32`: the character whose scalar value is `i`, or `None`
/// where `i` is no Unicode scalar value.
#[verifier::external_body]
fn char_from_u32(i: u32) -> (r: Option<char>)
    ensures
        r == char_of(i),
{
    char::from_u32(i)
}

/// Relies on `String::push`: appends one character.
#[verifier::external_body]
fn push_char(s: &mut String, c: char)
    ensures
        final(s)@ == old(s)@.push(c),
{
    s.push(c)
}

/// Text as a field: each character's scalar value in four big-endian bytes.
pub open spec fn text_bytes(t: Seq<char>) -> Seq<u8>
    decreases t.len(),
{
    if t.len() == 0 {
        Seq::empty()
    } else {
        be32(t[0] as u32) + text_bytes(t.drop_first())
    }
}

/// Reads text written by `text_bytes`; `None` on a cut-short value or one that
/// is no character.
pub open spec fn parse_text(f: Seq<u8>) -> Option<Seq<char>>
    decreases f.len(),
{
    if f.len() == 0 {
        Some(Seq::empty())
    } else if f.len() < 4 {
        None
    } else {
        match char_of(from_be32(f.subrange(0, 4))) {
            Some(c) => after(seq![c], parse_text(f.subrange(4, f.len() as int))),
            None => None,
        }
    }
}

pub proof fn lemma_char_round_trip(c: char)
    ensures
        char_of(c as u32) == Some(c),
{
    char_is_scalar(c);
    char_u32_cast(c, c as u32);
}

pub proof fn lemma_text_push(t: Seq<char>, c: char)
    ensures
        text_bytes(t.push(c)) == text_bytes(t) + be32(c as u32),
    decreases t.len(),
{
    if t.len() == 0 {
        assert(t.push(c).drop_first() =~= Seq::<char>::empty());
        assert(t.push(c)[0] == c);
        assert(text_bytes(Seq::<char>::empty()) == Seq::<u8>::empty());
        assert(text_bytes(t.push(c)) =~= text_bytes(t) + be32(c as u32));
    } else {
        lemma_text_push(t.drop_first(), c);
        assert(t.push(c).drop_first() =~= t.drop_first().push(c));
        assert(t.push(c)[0] == t[0]);
        assert(text_bytes(t.push(c)) =~= text_bytes(t) + be32(c as u32));
    }
}

pub proof fn lemma_text_round_trip(t: Seq<char>)
    ensures
        parse_text(text_bytes(t)) == Some(t),
    decreases t.len(),
{
    if t.len() > 0 {
        let rest = t.drop_first();
        lemma_text_round_trip(rest);
        lemma_be32_round_trip(t[0] as u32);
        lemma_char_round_trip(t[0]);
        let b = text_bytes(t);
        assert(b.subrange(0, 4) =~= be32(t[0] as u32));
        assert(b.subrange(4, b.len() as int) =~= text_bytes(rest));
        assert(seq![t[0]] + rest =~= t);
    }
}

/// Writes text as a field.
pub fn encode_text(t: &str) -> (r: Vec<u8>)
    ensures
        r@ == text_bytes(t@),
{
    let mut out: Vec<u8> = Vec::new();
    let n = t.unicode_len();
    let mut i: usize = 0;
    while i < n
        invariant
            n == t@.len(),
            0 <= i <= n,
            out@ == text_bytes(t@.take(i as int)),
        decreases n - i,
    {
        let c = t.get_char(i);
        proof {
            lemma_text_push(t@.take(i as int), c);
            assert(t@.take(i as int).push(c) =~= t@.take(i + 1));
        }
        push_be32(&mut out, c as u32);
        i += 1;
    }
    assert(t@.take(n as int) =~= t@);
    out
}

/// Reads a text field.
pub fn decode_text(f: &[u8]) -> (r: Option<String>)
    ensures
        match r {
            Some(t) => parse_text(f@) == Some(t@),
            None => parse_text(f@) is None,
        },
{
    let mut acc = String::new();
    let mut pos: usize = 0;
    let len = f.len();
    assert(f@.subrange(0, len as int) =~= f@);
    while pos < len
        invariant
            len == f@.len(),
            pos <= len,
            parse_text(f@) == after(acc@, parse_text(f@.subrange(pos as int, len as int))),
        decreases len - pos,
    {
        let ghost s = f@.subrange(pos as int, len as int);
        if len - pos < 4 {
            return None;
        }
        let i = read_be32(f, pos);
        assert(s.subrange(0, 4) =~= f@.subrange(pos as int, pos + 4));
        assert(s.subrange(4, s.len() as int) =~= f@.subrange(pos + 4, len as int));
        match char_from_u32(i) {
            None => {
                return None;
            },
            Some(c) => {
                let ghost old_acc = acc@;
                push_char(&mut acc, c);
                proof {
                    match parse_text(f@.subrange(pos + 4, len as int)) {
                        Some(rest) => {
                            assert(old_acc + (seq![c] + rest) =~= old_acc.push(c) + rest);
                        },
                        None => {},
                    }
                }
            },
        }
        pos = pos + 4;
    }
    assert(f@.subrange(pos as int, len as int) =~= Seq::<u8>::empty());
    assert(acc@ + Seq::<char>::empty() =~= acc@);
    Some(acc)
}

/// An optional blob as a field: a zero byte for none, a one byte before the
/// blob otherwise.
pub open spec fn option_bytes(o: Option<Seq<u8>>) -> Seq<u8> {
    match o {
        None => seq![0u8],
        Some(b) => seq![1u8] + b,
    }
}

/// Reads an optional blob field; the outer `None` is a malformed field.
pub open spec fn parse_option(f: Seq<u8>) -> Option<Option<Seq<u8>>> {
    if f.len() == 1 && f[0] == 0 {
        Some(None)
    } else if f.len() >= 1 && f[0] == 1 {
        Some(Some(f.subrange(1, f.len() as int)))
    } else {
        None
    }
}

pub proof fn lemma_option_round_trip(o: Option<Seq<u8>>)
    ensures
        parse_option(option_bytes(o)) == Some(o),
{
    match o {
        None => {},
        Some(b) => {
            assert((seq![1u8] + b).subrange(1, b.len() + 1 as int) =~= b);
        },
    }
}

/// A copy of `v`.
pub fn copy_bytes(v: &Vec<u8>) -> (r: Vec<u8>)
    ensures
        r@ == v@,
{
    let r = copy_range(v.as_slice(), 0, v.len());
    assert(v@.subrange(0, v@.len() as int) =~= v@);
    r
}

/// Writes an optional blob field.
pub fn encode_option(o: &Option<Vec<u8>>) -> (r: Vec<u8>)
    ensures
        r@ == option_bytes(
            match o {
                Some(b) => Some(b@),
                None => None,
            },
        ),
{
    let mut r: Vec<u8> = Vec::new();
    match o {
        None => {
            r.push(0u8);
            assert(r@ =~= seq![0u8]);
        },
        Some(b) => {
            r.push(1u8);
            let mut i: usize = 0;
            while i < b.len()
                invariant
                    i <= b@.len(),
                    r@ == seq![1u8] + b@.subrange(0, i as int),
                decreases b@.len() - i,
            {
                r.push(b[i]);
                i += 1;
                assert(r@ =~= seq![1u8] + b@.subrange(0, i as int));
            }
            assert(b@.subrange(0, b@.len() as int) =~= b@);
        },
    }
    r
}

/// Reads an optional blob field; the outer `None` is a malformed field.
pub fn decode_option(f: &[u8]) -> (r: Option<Option<Vec<u8>>>)
    ensures
        match r {
            Some(Some(b)) => parse_option(f@) == Some(Some(b@)),
            Some(None) => parse_option(f@) == Some(None::<Seq<u8>>),
            None => parse_option(f@) is None,
        },
{
    if f.len() == 1 && f[0] == 0 {
        Some(None)
    } else if f.len() >= 1 && f[0] == 1 {
        Some(Some(copy_range(f, 1, f.len())))
    } else {
        None
    }
}

pub proof fn lemma_join2_len(a: Seq<u8>, b: Seq<u8>)
    ensures
        join(seq![a, b]).len() == 16 + a.len() + b.len(),
{
    lemma_be64_round_trip(a.len() as u64);
    lemma_be64_round_trip(b.len() as u64);
    assert(seq![a, b].drop_first() =~= seq![b]);
    assert(seq![b].drop_first() =~= Seq::<Seq<u8>>::empty());
    assert(join(Seq::<Seq<u8>>::empty()).len() == 0);
    assert(join(seq![b]) == blob(b) + join(Seq::<Seq<u8>>::empty()));
    assert(join(seq![a, b]) == blob(a) + join(seq![b]));
}

pub proof fn lemma_join3_len(a: Seq<u8>, b: Seq<u8>, c: Seq<u8>)
    ensures
        join(seq![a, b, c]).len() == 24 + a.len() + b.len() + c.len(),
{
    lemma_be64_round_trip(a.len() as u64);
    lemma_join2_len(b, c);
    assert(seq![a, b, c].drop_first() =~= seq![b, c]);
    assert(join(seq![a, b, c]) == blob(a) + join(seq![b, c]));
}

} // verus!
