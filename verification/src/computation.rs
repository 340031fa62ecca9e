use vstd::prelude::*;
use std::collections::VecDeque;
use sha3::Digest;

verus! {

broadcast use vstd::std_specs::vecdeque::group_vec_dequeue_axioms;

/// Size in bytes of a SHA3-256 digest.
pub const SHA3_256_OUTPUT: usize = 32;

/// The SHA3-256 digest of a byte string, as the sha3 crate computes it.
pub uninterp spec fn sha3_256(input: Seq<u8>) -> Seq<u8>;

/// A SHA3-256 digest.
#[derive(Clone, Copy, Debug)]
pub struct SHashType {
    pub data: [u8; 32],
}

pub type HashType = SHashType;

/// A projection: the serialized form of an authenticated value.
pub type ProofType = Vec<u8>;

/// The stream of projections a prover records and a verifier consumes,
/// oldest first.
pub type ProofStream = VecDeque<Vec<u8>>;

/// The projections held by a proof stream, oldest first.
pub open spec fn stream_view(s: &ProofStream) -> Seq<Seq<u8>> {
    Seq::new(s@.len(), |i: int| s@[i]@)
}

impl SHashType {
    /// The bytes of the digest.
    pub open spec fn bytes(&self) -> Seq<u8> {
        self.data@
    }

    /// The all-zero digest (the default value).
    pub fn default() -> (h: SHashType)
        ensures
            h.bytes() == Seq::new(32, |i: int| 0u8),
    {
        let h = SHashType { data: [0u8; 32] };
        assert(h.bytes() =~= Seq::new(32, |i: int| 0u8));
        h
    }

    /// The digest bytes as a slice.
    pub fn as_ref(&self) -> (r: &[u8])
        ensures
            r@ == self.bytes(),
    {
        self.data.as_slice()
    }

    /// Whether two digests hold the same bytes.
    pub fn same(&self, other: &SHashType) -> (r: bool)
        ensures
            r == (self.bytes() == other.bytes()),
    {
        let mut i: usize = 0;
        while i < 32
            invariant
                0 <= i <= 32,
                forall|j: int| 0 <= j < i ==> self.data@[j] == other.data@[j],
            decreases 32 - i,
        {
            if self.data[i] != other.data[i] {
                assert(self.bytes()[i as int] != other.bytes()[i as int]);
                return false;
            }
            i = i + 1;
        }
        assert(self.bytes() =~= other.bytes());
        true
    }
}

/// The SHA3-256 digest of `input`.
///
/// Calls `Sha3_256::digest` of the sha3 crate; the contract claims only that
/// the 32 bytes returned are the crate's SHA3-256 digest of the input bytes.
#[verifier::external_body]
pub fn hash(input: &[u8]) -> (h: SHashType)
    ensures
        h.bytes() == sha3_256(input@),
{
    let out = <sha3::Sha3_256 as Digest>::digest(input);
    let mut data = [0u8; 32];
    data.copy_from_slice(out.as_slice());
    SHashType { data }
}


/// A copy of a byte string.
pub fn clone_bytes(v: &Vec<u8>) -> (r: Vec<u8>)
    ensures
        r@ == v@,
{
    let mut r: Vec<u8> = Vec::with_capacity(v.len());
    let mut i: usize = 0;
    while i < v.len()
        invariant
            0 <= i <= v.len(),
            r@ == v@.subrange(0, i as int),
        decreases v.len() - i,
    {
        r.push(v[i]);
        i = i + 1;
        assert(r@ =~= v@.subrange(0, i as int));
    }
    assert(v@.subrange(0, v.len() as int) =~= v@);
    r
}

/// A copy of a proof stream.
pub fn clone_stream(s: &ProofStream) -> (r: ProofStream)
    ensures
        stream_view(&r) == stream_view(s),
{
    let mut r: ProofStream = VecDeque::new();
    let mut i: usize = 0;
    while i < s.len()
        invariant
            0 <= i <= s.len(),
            stream_view(&r) == stream_view(s).subrange(0, i as int),
        decreases s.len() - i,
    {
        let p = clone_bytes(&s[i]);
        assert(p@ == stream_view(s)[i as int]);
        let ghost old_r = stream_view(&r);
        r.push_back(p);
        assert(stream_view(&r) =~= old_r.push(p@));
        i = i + 1;
        assert(stream_view(&r) =~= stream_view(s).subrange(0, i as int));
    }
    assert(stream_view(s).subrange(0, s.len() as int) =~= stream_view(s));
    r
}

/// An empty proof stream.
pub fn empty_stream() -> (r: ProofStream)
    ensures
        stream_view(&r) == Seq::<Seq<u8>>::empty(),
{
    let r: ProofStream = VecDeque::new();
    assert(stream_view(&r) =~= Seq::<Seq<u8>>::empty());
    r
}

/// Marker for values that may be serialized, compared and defaulted.
pub trait DecodeOwned {}

impl<T> DecodeOwned for T {}

/// Marker for the authenticated wrappers of a computation.
pub trait AuthTypeReq {}

/// The authenticated wrapper a computation uses for values of type `A`.
pub trait AuthType<A> {
    type AuthT;
}

/// The authenticated wrapper a computation uses for collections of `A`.
pub trait AuthContainer<A> {
    type AuthT;
}

/// Reading an authenticated value through a proof stream.
pub trait UnAuth<A> {
    /// What one read returns and leaves in the stream, given the stream
    /// before it; `None` when the read is refused.
    spec fn unauth_step(&self, before: Seq<Seq<u8>>) -> Option<(Seq<u8>, Seq<Seq<u8>>)>;

    /// Reads the value's projection; `None` when the read is refused, and
    /// then the stream is left as it was.
    fn unauth(&self, proofs: &mut ProofStream) -> (r: Option<Vec<u8>>)
        ensures
            match self.unauth_step(stream_view(old(proofs))) {
                Some((p, rest)) => r is Some && r.unwrap()@ == p && stream_view(final(proofs)) == rest,
                None => r is None && stream_view(final(proofs)) == stream_view(old(proofs)),
            },
    ;
}

/// Reading an authenticated value that is held mutably.
pub trait UnAuthMut<A>: UnAuth<A> + Sized {
    fn unauth_mut(&mut self, proofs: &mut ProofStream) -> (r: Option<Vec<u8>>)
        ensures
            match old(self).unauth_step(stream_view(old(proofs))) {
                Some((p, rest)) => r is Some && r.unwrap()@ == p && stream_view(final(proofs)) == rest,
                None => r is None && stream_view(final(proofs)) == stream_view(old(proofs)),
            },
            *final(self) == *old(self),
    ;
}

/// Recomputing the digest of an authenticated value after its value changed.
pub trait AuthUpdate {
    /// The digest bytes the value carries.
    spec fn digest_bytes(&self) -> Seq<u8>;

    /// Takes the projection of the new value and stores its digest.
    fn update(&mut self, projection: &Vec<u8>)
        ensures
            final(self).digest_bytes() == sha3_256(projection@),
    ;
}

/// Errors when decoding a projection.
pub enum Error {
    Shallow(String),
    UnShallow(String),
}

impl Error {
    /// The message of the error, prefixed by its kind.
    pub fn to_string(&self) -> (r: String)
        ensures
            match self {
                Error::Shallow(s) => r@ == "Shallow "@ + s@,
                Error::UnShallow(s) => r@ == "UnShallow "@ + s@,
            },
    {
        match self {
            Error::Shallow(s) => {
                let mut r = String::from_str("Shallow ");
                proof {
                    reveal_strlit("Shallow ");
                }
                r.append(s.as_str());
                r
            },
            Error::UnShallow(s) => {
                let mut r = String::from_str("UnShallow ");
                proof {
                    reveal_strlit("UnShallow ");
                }
                r.append(s.as_str());
                r
            },
        }
    }
}

/// The projection scheme in which values travel as their serialized bytes
/// (corepack).
pub struct CorePackProjection {}

/// Turns a decoded digest of 32 bytes into a hash.
pub struct HashVisitor;

impl HashVisitor {
    /// The digest held by `value`; it must be 32 bytes long.
    pub fn visit_bytes(&self, value: &[u8]) -> (h: SHashType)
        requires
            value@.len() == 32,
        ensures
            h.bytes() == value@,
    {
        let mut data = [0u8; 32];
        let mut i: usize = 0;
        while i < 32
            invariant
                0 <= i <= 32,
                value@.len() == 32,
                forall|j: int| 0 <= j < i ==> data@[j] == value@[j],
            decreases 32 - i,
        {
            data[i] = value[i];
            i = i + 1;
        }
        let h = SHashType { data };
        assert(h.bytes() =~= value@);
        h
    }
}

} // verus!
