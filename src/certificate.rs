//! The certificate model and its binary format.
//!
//! A certificate is written as its fields in order: subject, issuer and
//! subject public key as length-prefixed byte strings, `not_before`,
//! `not_after` and the number of extensions as big-endian 64-bit integers,
//! each extension as a length-prefixed key and value, and, when the
//! certificate is signed, the signature as a last length-prefixed byte string.
//! Everything before the signature is the canonical encoding that the
//! signature covers.
use crate::binary::{
    be64, copy_range, field, lemma_be64_read, lemma_read_be64, push_field, push_u64, read_be64, read_u64,
};
use crate::crypto::PUBLIC_KEY_LENGTH;
use crate::errors::{DecodeError, Error};
use vstd::prelude::*;

verus! {

/// An opaque key/value pair carried by a certificate.
#[derive(Clone, Debug)]
pub struct Extension {
    pub key: Vec<u8>,
    pub value: Vec<u8>,
}

impl View for Extension {
    type V = (Seq<u8>, Seq<u8>);

    open spec fn view(&self) -> (Seq<u8>, Seq<u8>) {
        (self.key@, self.value@)
    }
}

/// A signed (or not yet signed) binding of a subject identity to a public key
/// for the window `[not_before, not_after)`.
#[derive(Clone, Debug)]
pub struct Certificate {
    pub subject: Vec<u8>,
    pub issuer: Vec<u8>,
    pub subject_public_key: Vec<u8>,
    pub not_before: u64,
    pub not_after: u64,
    pub extensions: Vec<Extension>,
    pub signature: Option<Vec<u8>>,
}

/// What a certificate holds, as mathematical values.
pub struct CertificateView {
    pub subject: Seq<u8>,
    pub issuer: Seq<u8>,
    pub subject_public_key: Seq<u8>,
    pub not_before: u64,
    pub not_after: u64,
    pub extensions: Seq<(Seq<u8>, Seq<u8>)>,
    pub signature: Option<Seq<u8>>,
}

impl View for Certificate {
    type V = CertificateView;

    open spec fn view(&self) -> CertificateView {
        CertificateView {
            subject: self.subject@,
            issuer: self.issuer@,
            subject_public_key: self.subject_public_key@,
            not_before: self.not_before,
            not_after: self.not_after,
            extensions: self.extensions@.map_values(|e: Extension| e@),
            signature: match self.signature {
                Some(s) => Some(s@),
                None => None,
            },
        }
    }
}

/// The encoding of a sequence of extensions, each as its key then its value.
pub open spec fn extensions_encoding(e: Seq<(Seq<u8>, Seq<u8>)>) -> Seq<u8>
    decreases e.len(),
{
    if e.len() == 0 {
        seq![]
    } else {
        field(e[0].0) + field(e[0].1) + extensions_encoding(e.drop_first())
    }
}

impl CertificateView {
    /// The canonical encoding of every field but the signature: the bytes
    /// that a signature covers.
    pub open spec fn unsigned_encoding(self) -> Seq<u8> {
        field(self.subject) + field(self.issuer) + field(self.subject_public_key) + be64(self.not_before)
            + be64(self.not_after) + be64(self.extensions.len() as u64) + extensions_encoding(self.extensions)
    }

    /// The encoding of the whole certificate.
    pub open spec fn encoding(self) -> Seq<u8> {
        self.unsigned_encoding() + match self.signature {
            Some(s) => field(s),
            None => Seq::empty(),
        }
    }

    /// The same certificate without its signature.
    pub open spec fn unsigned(self) -> CertificateView {
        CertificateView { signature: None, ..self }
    }

    /// Every length can be written in the format.
    pub open spec fn encodable(self) -> bool {
        &&& self.subject.len() <= u64::MAX
        &&& self.issuer.len() <= u64::MAX
        &&& self.subject_public_key.len() <= u64::MAX
        &&& self.extensions.len() <= u64::MAX
        &&& forall|i: int|
            0 <= i < self.extensions.len() ==> (#[trigger] self.extensions[i]).0.len() <= u64::MAX
                && self.extensions[i].1.len() <= u64::MAX
        &&& self.signature matches Some(s) ==> s.len() <= u64::MAX
    }

    /// The certificate's own invariant: a subject, a key of the scheme's
    /// length, and a non-empty validity window.
    pub open spec fn well_formed(self) -> bool {
        &&& self.subject.len() > 0
        &&& self.subject_public_key.len() == PUBLIC_KEY_LENGTH
        &&& self.not_before < self.not_after
    }

    /// Whether `now` lies in the validity window `[not_before, not_after)`.
    pub open spec fn is_current_at(self, now: u64) -> bool {
        self.not_before <= now < self.not_after
    }
}

/// The length-prefixed byte string at `pos`, and the position after it.
#[verifier::opaque]
pub open spec fn parse_field(b: Seq<u8>, pos: int) -> Option<(Seq<u8>, int)> {
    if 0 <= pos && pos + 8 <= b.len() && read_be64(b, pos) <= b.len() - (pos + 8) {
        let end = pos + 8 + read_be64(b, pos);
        Some((b.subrange(pos + 8, end), end))
    } else {
        None
    }
}

/// The big-endian integer at `pos`, and the position after it.
#[verifier::opaque]
pub open spec fn parse_u64(b: Seq<u8>, pos: int) -> Option<(u64, int)> {
    if 0 <= pos && pos + 8 <= b.len() {
        Some((read_be64(b, pos), pos + 8))
    } else {
        None
    }
}

/// `count` extensions read from `pos`, and the position after them.
pub open spec fn parse_extensions(b: Seq<u8>, pos: int, count: nat) -> Option<(Seq<(Seq<u8>, Seq<u8>)>, int)>
    decreases count,
{
    if count == 0 {
        Some((Seq::empty(), pos))
    } else {
        match parse_field(b, pos) {
            None => None,
            Some((k, p1)) => match parse_field(b, p1) {
                None => None,
                Some((v, p2)) => match parse_extensions(b, p2, (count - 1) as nat) {
                    None => None,
                    Some((rest, p3)) => Some((seq![(k, v)] + rest, p3)),
                },
            },
        }
    }
}

/// The optional signature that closes an encoding at `pos`.
#[verifier::opaque]
pub open spec fn parse_signature(b: Seq<u8>, pos: int) -> Result<Option<Seq<u8>>, DecodeError> {
    if pos == b.len() {
        Ok(None)
    } else {
        match parse_field(b, pos) {
            None => Err(DecodeError::Truncated),
            Some((s, end)) => if end == b.len() {
                Ok(Some(s))
            } else {
                Err(DecodeError::TrailingBytes)
            },
        }
    }
}

/// The fields that `b` lays out, whatever they hold.
pub open spec fn parse_layout(b: Seq<u8>) -> Result<CertificateView, DecodeError> {
    match parse_field(b, 0) {
        None => Err(DecodeError::Truncated),
        Some((subject, p1)) => match parse_field(b, p1) {
            None => Err(DecodeError::Truncated),
            Some((issuer, p2)) => match parse_field(b, p2) {
                None => Err(DecodeError::Truncated),
                Some((key, p3)) => match parse_u64(b, p3) {
                    None => Err(DecodeError::Truncated),
                    Some((not_before, p4)) => match parse_u64(b, p4) {
                        None => Err(DecodeError::Truncated),
                        Some((not_after, p5)) => match parse_u64(b, p5) {
                            None => Err(DecodeError::Truncated),
                            Some((count, p6)) => match parse_extensions(b, p6, count as nat) {
                                None => Err(DecodeError::Truncated),
                                Some((extensions, p7)) => match parse_signature(b, p7) {
                                    Err(e) => Err(e),
                                    Ok(signature) => Ok(
                                        CertificateView {
                                            subject,
                                            issuer,
                                            subject_public_key: key,
                                            not_before,
                                            not_after,
                                            extensions,
                                            signature,
                                        },
                                    ),
                                },
                            },
                        },
                    },
                },
            },
        },
    }
}

/// The certificate that `b` holds, or why it holds none.
pub open spec fn parse_certificate(b: Seq<u8>) -> Result<CertificateView, DecodeError> {
    match parse_layout(b) {
        Err(e) => Err(e),
        Ok(c) => if c.subject_public_key.len() != PUBLIC_KEY_LENGTH {
            Err(DecodeError::KeyLength)
        } else if c.subject.len() == 0 {
            Err(DecodeError::EmptySubject)
        } else if c.not_before >= c.not_after {
            Err(DecodeError::EmptyWindow)
        } else {
            Ok(c)
        },
    }
}

/// The encoding of extensions written one after another is the encodings
/// of the two runs, joined.
pub proof fn lemma_extensions_encoding_append(a: Seq<(Seq<u8>, Seq<u8>)>, b: Seq<(Seq<u8>, Seq<u8>)>)
    ensures
        extensions_encoding(a + b) == extensions_encoding(a) + extensions_encoding(b),
    decreases a.len(),
{
    if a.len() == 0 {
        assert(a + b =~= b);
        assert(extensions_encoding(a) + extensions_encoding(b) =~= extensions_encoding(b));
    } else {
        lemma_extensions_encoding_append(a.drop_first(), b);
        assert((a + b).drop_first() =~= a.drop_first() + b);
        assert((a + b)[0] == a[0]);
        assert(extensions_encoding(a + b) =~= extensions_encoding(a) + extensions_encoding(b));
    }
}

/// The length-prefixed byte string at `pos`.
fn read_field(b: &[u8], pos: usize) -> (r: Option<(Vec<u8>, usize)>)
    ensures
        r is None <==> parse_field(b@, pos as int) is None,
        r matches Some((s, end)) ==> parse_field(b@, pos as int) == Some((s@, end as int)),
{
    reveal(parse_field);
    match read_u64(b, pos) {
        None => None,
        Some(n) => {
            let start = pos + 8;
            if n > (b.len() - start) as u64 {
                None
            } else {
                let end = start + n as usize;
                Some((copy_range(b, start, end), end))
            }
        },
    }
}

/// The big-endian integer at `pos`.
fn read_u64_field(b: &[u8], pos: usize) -> (r: Option<(u64, usize)>)
    ensures
        r is None <==> parse_u64(b@, pos as int) is None,
        r matches Some((n, end)) ==> parse_u64(b@, pos as int) == Some((n, end as int)),
{
    reveal(parse_u64);
    match read_u64(b, pos) {
        None => None,
        Some(n) => Some((n, pos + 8)),
    }
}

/// `count` extensions read from `pos`.
fn read_extensions(b: &[u8], pos: usize, count: u64) -> (r: Option<(Vec<Extension>, usize)>)
    ensures
        r is None <==> parse_extensions(b@, pos as int, count as nat) is None,
        r matches Some((e, end)) ==> parse_extensions(b@, pos as int, count as nat) == Some(
            (e@.map_values(|x: Extension| x@), end as int),
        ),
{
    let mut out: Vec<Extension> = Vec::new();
    let mut at: usize = pos;
    let mut i: u64 = 0;
    while i < count
        invariant
            i <= count,
            parse_extensions(b@, pos as int, count as nat) == match parse_extensions(
                b@,
                at as int,
                (count - i) as nat,
            ) {
                Some((rest, end)) => Some((out@.map_values(|x: Extension| x@) + rest, end)),
                None => None,
            },
        decreases count - i,
    {
        let ghost before = out@.map_values(|x: Extension| x@);
        match read_field(b, at) {
            None => return None,
            Some((key, p1)) => match read_field(b, p1) {
                None => return None,
                Some((value, p2)) => {
                    let ghost pair = (key@, value@);
                    proof {
                        let tail = parse_extensions(b@, p2 as int, (count - i - 1) as nat);
                        if let Some((rest, end)) = tail {
                            assert(before + (seq![pair] + rest) =~= before.push(pair) + rest);
                        }
                    }
                    out.push(Extension { key, value });
                    assert(out@.map_values(|x: Extension| x@) =~= before.push(pair));
                    at = p2;
                    i = i + 1;
                },
            },
        }
    }
    assert(out@.map_values(|x: Extension| x@) + Seq::empty() =~= out@.map_values(|x: Extension| x@));
    Some((out, at))
}

impl Certificate {
    /// The canonical encoding of every field but the signature: the exact
    /// bytes that the issuer's signature covers.
    pub fn encode_unsigned(&self) -> (r: Vec<u8>)
        ensures
            r@ == self@.unsigned_encoding(),
    {
        let mut out: Vec<u8> = Vec::new();
        push_field(&mut out, &self.subject);
        push_field(&mut out, &self.issuer);
        push_field(&mut out, &self.subject_public_key);
        push_u64(&mut out, self.not_before);
        push_u64(&mut out, self.not_after);
        push_u64(&mut out, self.extensions.len() as u64);
        let ghost head = out@;
        let ghost ext = self@.extensions;
        let mut i: usize = 0;
        while i < self.extensions.len()
            invariant
                i <= self.extensions@.len(),
                ext == self.extensions@.map_values(|x: Extension| x@),
                out@ == head + extensions_encoding(ext.take(i as int)),
            decreases self.extensions@.len() - i,
        {
            let ghost before = out@;
            push_field(&mut out, &self.extensions[i].key);
            push_field(&mut out, &self.extensions[i].value);
            proof {
                let one = seq![ext[i as int]];
                lemma_extensions_encoding_append(ext.take(i as int), one);
                assert(ext.take(i as int) + one =~= ext.take(i + 1));
                assert(one.drop_first() =~= Seq::<(Seq<u8>, Seq<u8>)>::empty());
                assert(extensions_encoding(one.drop_first()) =~= Seq::<u8>::empty());
                assert(extensions_encoding(one) =~= field(ext[i as int].0) + field(ext[i as int].1));
                assert(out@ =~= head + extensions_encoding(ext.take(i + 1)));
            }
            i = i + 1;
        }
        assert(ext.take(i as int) =~= ext);
        assert(out@ =~= self@.unsigned_encoding());
        out
    }

    /// The encoding of the whole certificate: the canonical encoding,
    /// followed by the signature when there is one.
    pub fn encode(&self) -> (r: Vec<u8>)
        ensures
            r@ == self@.encoding(),
    {
        let mut out = self.encode_unsigned();
        match &self.signature {
            Some(s) => push_field(&mut out, s),
            None => {
                assert(out@ =~= out@ + Seq::<u8>::empty());
            },
        }
        out
    }
}

/// Reads the fields that `b` lays out, then checks the certificate's
/// invariant.
fn read_certificate(b: &[u8]) -> (r: Result<Certificate, Error>)
    ensures
        match r {
            Ok(c) => parse_certificate(b@) == Ok::<CertificateView, DecodeError>(c@),
            Err(e) => e.decode_error() is Some && parse_certificate(b@) == Err::<CertificateView, DecodeError>(
                e.decode_error()->0,
            ),
        },
{
    reveal(parse_signature);
    let truncated = DecodeError::Truncated;
    let (subject, p1) = match read_field(b, 0) {
        None => return Err(Error::from_decode(truncated)),
        Some(x) => x,
    };
    let (issuer, p2) = match read_field(b, p1) {
        None => return Err(Error::from_decode(truncated)),
        Some(x) => x,
    };
    let (subject_public_key, p3) = match read_field(b, p2) {
        None => return Err(Error::from_decode(truncated)),
        Some(x) => x,
    };
    let (not_before, p4) = match read_u64_field(b, p3) {
        None => return Err(Error::from_decode(truncated)),
        Some(x) => x,
    };
    let (not_after, p5) = match read_u64_field(b, p4) {
        None => return Err(Error::from_decode(truncated)),
        Some(x) => x,
    };
    let (count, p6) = match read_u64_field(b, p5) {
        None => return Err(Error::from_decode(truncated)),
        Some(x) => x,
    };
    let (extensions, p7) = match read_extensions(b, p6, count) {
        None => return Err(Error::from_decode(truncated)),
        Some(x) => x,
    };
    let signature = if p7 == b.len() {
        None
    } else {
        match read_field(b, p7) {
            None => return Err(Error::from_decode(truncated)),
            Some((s, end)) => {
                if end != b.len() {
                    return Err(Error::from_decode(DecodeError::TrailingBytes));
                }
                Some(s)
            },
        }
    };
    let c = Certificate { subject, issuer, subject_public_key, not_before, not_after, extensions, signature };
    if c.subject_public_key.len() != PUBLIC_KEY_LENGTH {
        return Err(Error::from_decode(DecodeError::KeyLength));
    }
    if c.subject.len() == 0 {
        return Err(Error::from_decode(DecodeError::EmptySubject));
    }
    if c.not_before >= c.not_after {
        return Err(Error::from_decode(DecodeError::EmptyWindow));
    }
    Ok(c)
}

/// Where `x + y` stands at `pos`, `x` stands at `pos` and `y` right after it.
proof fn lemma_split(b: Seq<u8>, pos: int, x: Seq<u8>, y: Seq<u8>)
    requires
        0 <= pos,
        pos + x.len() + y.len() <= b.len(),
        b.subrange(pos, pos + x.len() + y.len()) == x + y,
    ensures
        b.subrange(pos, pos + x.len()) == x,
        b.subrange(pos + x.len(), pos + x.len() + y.len()) == y,
{
    assert forall|i: int| 0 <= i < x.len() + y.len() implies b[pos + i] == (x + y)[i] by {
        assert(b.subrange(pos, pos + x.len() + y.len())[i] == b[pos + i]);
    }
    assert(b.subrange(pos, pos + x.len()) =~= x);
    assert forall|j: int| 0 <= j < y.len() implies b.subrange(pos + x.len(), pos + x.len() + y.len())[j] == y[j] by {
        assert(b[pos + (x.len() + j)] == (x + y)[x.len() + j]);
    }
    assert(b.subrange(pos + x.len(), pos + x.len() + y.len()) =~= y);
}

/// Where `field(s)` stands at `pos`, reading a field there gives `s`.
proof fn lemma_parse_field_at(b: Seq<u8>, pos: int, s: Seq<u8>)
    requires
        0 <= pos,
        pos + 8 + s.len() <= b.len(),
        s.len() <= u64::MAX,
        b.subrange(pos, pos + 8 + s.len()) == field(s),
    ensures
        parse_field(b, pos) == Some((s, pos + 8 + s.len())),
{
    reveal(parse_field);
    lemma_split(b, pos, be64(s.len() as u64), s);
    lemma_read_be64(b, pos, s.len() as u64);
}

/// Where `be64(n)` stands at `pos`, reading an integer there gives `n`.
proof fn lemma_parse_u64_at(b: Seq<u8>, pos: int, n: u64)
    requires
        0 <= pos,
        pos + 8 <= b.len(),
        b.subrange(pos, pos + 8) == be64(n),
    ensures
        parse_u64(b, pos) == Some((n, pos + 8)),
{
    reveal(parse_u64);
    lemma_read_be64(b, pos, n);
}

/// Where the encoding of `e` stands at `pos`, reading `e.len()` extensions
/// there gives `e`.
proof fn lemma_parse_extensions_at(b: Seq<u8>, pos: int, e: Seq<(Seq<u8>, Seq<u8>)>)
    requires
        0 <= pos,
        pos + extensions_encoding(e).len() <= b.len(),
        b.subrange(pos, pos + extensions_encoding(e).len()) == extensions_encoding(e),
        forall|i: int| 0 <= i < e.len() ==> (#[trigger] e[i]).0.len() <= u64::MAX && e[i].1.len() <= u64::MAX,
    ensures
        parse_extensions(b, pos, e.len()) == Some((e, pos + extensions_encoding(e).len())),
    decreases e.len(),
{
    if e.len() == 0 {
        assert(e =~= Seq::<(Seq<u8>, Seq<u8>)>::empty());
    } else {
        let k = e[0].0;
        let v = e[0].1;
        let rest = e.drop_first();
        let p1: int = pos + 8 + k.len();
        let p2: int = p1 + 8 + v.len();
        lemma_split(b, pos, field(k) + field(v), extensions_encoding(rest));
        lemma_split(b, pos, field(k), field(v));
        lemma_parse_field_at(b, pos, k);
        lemma_parse_field_at(b, p1, v);
        assert forall|i: int| 0 <= i < rest.len() implies (#[trigger] rest[i]).0.len() <= u64::MAX
            && rest[i].1.len() <= u64::MAX by {
            assert(rest[i] == e[i + 1]);
        }
        lemma_parse_extensions_at(b, p2, rest);
        assert(seq![(k, v)] + rest =~= e);
    }
}

/// Where each field of `c` begins in its encoding.
spec fn field_offsets(c: CertificateView) -> Seq<int> {
    let p1: int = 8 + c.subject.len() as int;
    let p2 = p1 + 8 + c.issuer.len();
    let p3 = p2 + 8 + c.subject_public_key.len();
    seq![0, p1, p2, p3, p3 + 8, p3 + 16, p3 + 24, p3 + 24 + extensions_encoding(c.extensions).len()]
}

/// Each field of an encoding reads back as the field that was written.
#[verifier::rlimit(50)]
proof fn lemma_encoding_fields(c: CertificateView)
    requires
        c.encodable(),
    ensures
        ({
            let b = c.encoding();
            let p = field_offsets(c);
            &&& parse_field(b, p[0]) == Some((c.subject, p[1]))
            &&& parse_field(b, p[1]) == Some((c.issuer, p[2]))
            &&& parse_field(b, p[2]) == Some((c.subject_public_key, p[3]))
            &&& parse_u64(b, p[3]) == Some((c.not_before, p[4]))
            &&& parse_u64(b, p[4]) == Some((c.not_after, p[5]))
            &&& parse_u64(b, p[5]) == Some((c.extensions.len() as u64, p[6]))
            &&& parse_extensions(b, p[6], c.extensions.len()) == Some((c.extensions, p[7]))
            &&& parse_signature(b, p[7]) == Ok::<Option<Seq<u8>>, DecodeError>(c.signature)
        }),
{
    reveal(parse_signature);
    let b = c.encoding();
    let x = extensions_encoding(c.extensions);
    let t = match c.signature {
        Some(s) => field(s),
        None => Seq::empty(),
    };
    let a1 = field(c.subject);
    let a2 = a1 + field(c.issuer);
    let a3 = a2 + field(c.subject_public_key);
    let a4 = a3 + be64(c.not_before);
    let a5 = a4 + be64(c.not_after);
    let a6 = a5 + be64(c.extensions.len() as u64);
    let a7 = a6 + x;
    assert(b == a7 + t);
    assert(b.subrange(0, b.len() as int) =~= b);
    lemma_split(b, 0, a7, t);
    lemma_split(b, 0, a6, x);
    lemma_split(b, 0, a5, be64(c.extensions.len() as u64));
    lemma_split(b, 0, a4, be64(c.not_after));
    lemma_split(b, 0, a3, be64(c.not_before));
    lemma_split(b, 0, a2, field(c.subject_public_key));
    lemma_split(b, 0, a1, field(c.issuer));
    let p = field_offsets(c);
    lemma_parse_field_at(b, p[0], c.subject);
    lemma_parse_field_at(b, p[1], c.issuer);
    lemma_parse_field_at(b, p[2], c.subject_public_key);
    lemma_parse_u64_at(b, p[3], c.not_before);
    lemma_parse_u64_at(b, p[4], c.not_after);
    lemma_parse_u64_at(b, p[5], c.extensions.len() as u64);
    lemma_parse_extensions_at(b, p[6], c.extensions);
    match c.signature {
        None => {},
        Some(s) => {
            lemma_parse_field_at(b, p[7], s);
        },
    }
}

/// Decoding the encoding of a well-formed certificate gives that same
/// certificate back, field for field; in particular a certificate without a
/// signature comes back without one.
pub proof fn lemma_decode_encoding(c: CertificateView)
    requires
        c.well_formed(),
        c.encodable(),
    ensures
        parse_certificate(c.encoding()) == Ok::<CertificateView, DecodeError>(c),
{
    lemma_encoding_fields(c);
    let d = parse_layout(c.encoding())->Ok_0;
    assert(d == c);
}

/// Adjacent ranges of `b` join into one.
proof fn lemma_join(b: Seq<u8>, p: int, q: int, r: int)
    requires
        0 <= p <= q <= r <= b.len(),
    ensures
        b.subrange(p, q) + b.subrange(q, r) == b.subrange(p, r),
{
    assert(b.subrange(p, q) + b.subrange(q, r) =~= b.subrange(p, r));
}

/// A field read at `pos` is what stands there.
proof fn lemma_field_read(b: Seq<u8>, pos: int)
    requires
        parse_field(b, pos) is Some,
    ensures
        ({
            let (s, end) = parse_field(b, pos)->0;
            &&& pos <= end <= b.len()
            &&& s.len() <= u64::MAX
            &&& b.subrange(pos, end) == field(s)
        }),
{
    reveal(parse_field);
    let (s, end) = parse_field(b, pos)->0;
    lemma_be64_read(b, pos);
    assert(s.len() as u64 == read_be64(b, pos));
    lemma_join(b, pos, pos + 8, end);
}

/// An integer read at `pos` is what stands there.
proof fn lemma_u64_read(b: Seq<u8>, pos: int)
    requires
        parse_u64(b, pos) is Some,
    ensures
        ({
            let (n, end) = parse_u64(b, pos)->0;
            &&& pos <= end <= b.len()
            &&& b.subrange(pos, end) == be64(n)
        }),
{
    reveal(parse_u64);
    lemma_be64_read(b, pos);
}

/// Extensions read at `pos` are what stands there.
proof fn lemma_extensions_read(b: Seq<u8>, pos: int, count: nat)
    requires
        0 <= pos,
        parse_extensions(b, pos, count) is Some,
    ensures
        ({
            let (e, end) = parse_extensions(b, pos, count)->0;
            &&& pos <= end <= b.len() || (count == 0 && end == pos)
            &&& e.len() == count
            &&& b.subrange(pos, end) == extensions_encoding(e) || (count == 0 && e.len() == 0)
            &&& forall|i: int| 0 <= i < e.len() ==> (#[trigger] e[i]).0.len() <= u64::MAX && e[i].1.len() <= u64::MAX
        }),
    decreases count,
{
    if count > 0 {
        let (k, p1) = parse_field(b, pos)->0;
        lemma_field_read(b, pos);
        let (v, p2) = parse_field(b, p1)->0;
        lemma_field_read(b, p1);
        let (rest, end) = parse_extensions(b, p2, (count - 1) as nat)->0;
        lemma_extensions_read(b, p2, (count - 1) as nat);
        let e = seq![(k, v)] + rest;
        assert(e.drop_first() =~= rest);
        assert(e[0] == (k, v));
        if count - 1 == 0 {
            assert(rest.len() == 0);
            assert(end == p2);
            assert(extensions_encoding(rest) =~= Seq::<u8>::empty());
        }
        lemma_join(b, pos, p1, p2);
        lemma_join(b, pos, p2, end);
        assert(b.subrange(p2, end) =~= extensions_encoding(rest));
        assert(b.subrange(pos, end) =~= extensions_encoding(e));
        assert forall|i: int| 0 <= i < e.len() implies (#[trigger] e[i]).0.len() <= u64::MAX && e[i].1.len()
            <= u64::MAX by {
            if i > 0 {
                assert(e[i] == rest[i - 1]);
            }
        }
    }
}

/// Only the encoding of a well-formed certificate decodes: whatever
/// decodes is, byte for byte, the encoding of what it decodes to.
pub proof fn lemma_decoded_is_encoding(b: Seq<u8>)
    requires
        parse_certificate(b) is Ok,
    ensures
        ({
            let c = parse_certificate(b)->Ok_0;
            &&& c.well_formed()
            &&& c.encodable()
            &&& c.encoding() == b
        }),
{
    let c = parse_certificate(b)->Ok_0;
    let (subject, p1) = parse_field(b, 0)->0;
    lemma_field_read(b, 0);
    let (issuer, p2) = parse_field(b, p1)->0;
    lemma_field_read(b, p1);
    let (key, p3) = parse_field(b, p2)->0;
    lemma_field_read(b, p2);
    let (nb, p4) = parse_u64(b, p3)->0;
    lemma_u64_read(b, p3);
    let (na, p5) = parse_u64(b, p4)->0;
    lemma_u64_read(b, p4);
    let (count, p6) = parse_u64(b, p5)->0;
    lemma_u64_read(b, p5);
    let (ext, p7) = parse_extensions(b, p6, count as nat)->0;
    lemma_extensions_read(b, p6, count as nat);
    if count == 0 {
        assert(extensions_encoding(ext) =~= Seq::<u8>::empty());
        assert(b.subrange(p6, p7) =~= Seq::<u8>::empty());
    }
    assert(c.subject == subject && c.issuer == issuer && c.subject_public_key == key);
    assert(c.not_before == nb && c.not_after == na && c.extensions == ext);
    lemma_join(b, 0, p1, p2);
    lemma_join(b, 0, p2, p3);
    lemma_join(b, 0, p3, p4);
    lemma_join(b, 0, p4, p5);
    lemma_join(b, 0, p5, p6);
    lemma_join(b, 0, p6, p7);
    assert(b.subrange(0, p7) == c.unsigned_encoding());
    reveal(parse_signature);
    if p7 == b.len() {
        assert(b.subrange(0, p7) =~= b);
        assert(c.encoding() =~= c.unsigned_encoding());
    } else {
        lemma_field_read(b, p7);
        lemma_join(b, 0, p7, b.len() as int);
        assert(b.subrange(0, b.len() as int) =~= b);
    }
}

/// Reads a certificate from its encoding, rejecting truncated input, bytes
/// after the last field, a public key of the wrong length, an empty subject
/// and an empty validity window. Exactly the encodings of well-formed
/// certificates are accepted, each as the certificate it encodes.
pub fn decode_certificate(b: &[u8]) -> (r: Result<Certificate, Error>)
    ensures
        match r {
            Ok(c) => parse_certificate(b@) == Ok::<CertificateView, DecodeError>(c@),
            Err(e) => e.decode_error() is Some && parse_certificate(b@) == Err::<CertificateView, DecodeError>(
                e.decode_error()->0,
            ),
        },
        r matches Ok(c) ==> c@.well_formed() && c@.encoding() == b@,
        r is Err ==> forall|c: CertificateView| #[trigger] c.encoding() == b@ ==> !(c.well_formed() && c.encodable()),
{
    let r = read_certificate(b);
    proof {
        if r is Ok {
            lemma_decoded_is_encoding(b@);
        } else {
            assert forall|c: CertificateView| #[trigger] c.encoding() == b@ implies !(c.well_formed()
                && c.encodable()) by {
                if c.well_formed() && c.encodable() {
                    lemma_decode_encoding(c);
                }
            }
        }
    }
    r
}

} // verus!
