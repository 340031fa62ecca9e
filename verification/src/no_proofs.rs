//! A computation that reads authenticated values without recording or
//! checking proofs.
use vstd::prelude::*;
use crate::computation::{
    clone_bytes, empty_stream, hash, sha3_256, stream_view, AuthContainer, AuthType, AuthTypeReq,
    AuthUpdate, ProofStream, SHashType, UnAuth, UnAuthMut,
};

verus! {

/// An authenticated value read without proofs: the value, its projection and
/// the digest of the projection.
pub struct AuthTNoProofs<A> {
    value: A,
    projection: Vec<u8>,
    digest: SHashType,
}

impl<A> AuthTNoProofs<A> {
    /// The digest is the digest of the projection.
    pub open spec fn wf(&self) -> bool {
        self.signature_bytes() == sha3_256(self.projection_bytes())
    }

    pub closed spec fn value_of(&self) -> A {
        self.value
    }

    pub closed spec fn projection_bytes(&self) -> Seq<u8> {
        self.projection@
    }

    pub closed spec fn signature_bytes(&self) -> Seq<u8> {
        self.digest.bytes()
    }

    /// Authenticates `value`, whose serialized form is `projection`.
    pub fn new(value: A, projection: Vec<u8>) -> (r: Self)
        ensures
            r.wf(),
            r.value_of() == value,
            r.projection_bytes() == projection@,
            r.signature_bytes() == sha3_256(projection@),
    {
        let digest = hash(projection.as_slice());
        AuthTNoProofs { value, projection, digest }
    }

    /// The authenticated value.
    pub fn value(&self) -> (r: &A)
        ensures
            *r == self.value_of(),
    {
        &self.value
    }

    /// The digest of the projection.
    pub fn signature(&self) -> (r: &SHashType)
        ensures
            r.bytes() == self.signature_bytes(),
    {
        &self.digest
    }

    /// Replaces the value; its digest is recomputed by `update`.
    pub fn set_value(&mut self, value: A)
        ensures
            final(self).value_of() == value,
            final(self).projection_bytes() == old(self).projection_bytes(),
            final(self).signature_bytes() == old(self).signature_bytes(),
            old(self).wf() ==> final(self).wf(),
    {
        self.value = value;
    }
}

impl<A> AuthTypeReq for AuthTNoProofs<A> {}

impl<A> UnAuth<A> for AuthTNoProofs<A> {
    open spec fn unauth_step(&self, before: Seq<Seq<u8>>) -> Option<(Seq<u8>, Seq<Seq<u8>>)> {
        Some((self.projection_bytes(), before))
    }

    /// Returns the projection; the stream is left as it is.
    fn unauth(&self, proofs: &mut ProofStream) -> (r: Option<Vec<u8>>) {
        Some(clone_bytes(&self.projection))
    }
}

impl<A> UnAuthMut<A> for AuthTNoProofs<A> {
    fn unauth_mut(&mut self, proofs: &mut ProofStream) -> (r: Option<Vec<u8>>) {
        self.unauth(proofs)
    }
}

impl<A> AuthUpdate for AuthTNoProofs<A> {
    open spec fn digest_bytes(&self) -> Seq<u8> {
        self.signature_bytes()
    }

    /// Stores the projection of the current value and its digest.
    fn update(&mut self, projection: &Vec<u8>)
        ensures
            final(self).wf(),
            final(self).projection_bytes() == projection@,
            final(self).value_of() == old(self).value_of(),
    {
        self.projection = clone_bytes(projection);
        self.digest = hash(projection.as_slice());
    }
}

/// A computation that returns a result of type `A` (or an error `E`) and
/// keeps no proofs.
pub struct NoProofs<A, E> {
    result: Result<A, E>,
}

impl<A, E> NoProofs<A, E> {
    pub closed spec fn result_of(&self) -> Result<A, E> {
        self.result
    }

    /// A computation returning `initial`; the proofs given are ignored.
    pub fn new(prfs: Option<&ProofStream>, initial: A) -> (r: Self)
        ensures
            r.result_of() == Ok::<A, E>(initial),
    {
        NoProofs { result: Ok(initial) }
    }

    /// A computation without proofs hands back an empty stream.
    pub fn transfer_proofs(self) -> (r: ProofStream)
        ensures
            stream_view(&r) == Seq::<Seq<u8>>::empty(),
    {
        empty_stream()
    }

    /// The computation returning `r`.
    pub fn pure(&mut self, r: A) -> (c: Self)
        ensures
            c.result_of() == Ok::<A, E>(r),
            *final(self) == *old(self),
    {
        NoProofs { result: Ok(r) }
    }

    /// Runs `f` on the result, when there is one, and takes its result.
    pub fn bind<F: FnOnce(&A) -> Self>(&mut self, f: F)
        requires
            old(self).result_of() is Ok ==> f.requires((&old(self).result_of()->Ok_0,)),
        ensures
            old(self).result_of() is Err ==> *final(self) == *old(self),
            old(self).result_of() is Ok ==> exists|p: Self|
                #[trigger] f.ensures((&old(self).result_of()->Ok_0,), p) && final(self).result_of()
                    == p.result_of(),
    {
        match &self.result {
            Ok(x) => {
                let p = f(x);
                self.result = p.result;
            },
            Err(_) => {},
        }
    }

    /// The result, when the computation succeeded.
    pub fn get(&self) -> (r: Option<&A>)
        ensures
            match self.result_of() {
                Ok(x) => r == Some(&x),
                Err(_) => r is None,
            },
    {
        match &self.result {
            Ok(t) => Some(t),
            Err(_) => None,
        }
    }

    /// Sets the result.
    pub fn put(&mut self, value: A)
        ensures
            final(self).result_of() == Ok::<A, E>(value),
    {
        self.result = Ok(value);
    }

    /// Sets an error as the result.
    pub fn put_err(&mut self, e: E)
        ensures
            final(self).result_of() == Err::<A, E>(e),
    {
        self.result = Err(e);
    }

    /// Sets the result; the other computation's proofs are dropped.
    pub fn transfer<U, F>(&mut self, value: A, from_comp: NoProofs<U, F>)
        ensures
            final(self).result_of() == Ok::<A, E>(value),
    {
        self.result = Ok(value);
    }

    /// Authenticates `value`, whose serialized form is `projection`.
    pub fn auth<B>(value: B, projection: Vec<u8>) -> (r: AuthTNoProofs<B>)
        ensures
            r.wf(),
            r.value_of() == value,
            r.projection_bytes() == projection@,
            r.signature_bytes() == sha3_256(projection@),
    {
        AuthTNoProofs::new(value, projection)
    }

    /// Reads an authenticated value; nothing is recorded.
    pub fn unauth<'a, B>(&mut self, a: &'a AuthTNoProofs<B>) -> (r: &'a B)
        ensures
            *r == a.value_of(),
            *final(self) == *old(self),
    {
        a.value()
    }

    /// Reads an authenticated value held mutably; nothing is recorded.
    pub fn unauth_mut<'a, B>(&mut self, a: &'a mut AuthTNoProofs<B>) -> (r: &'a B)
        ensures
            *r == old(a).value_of(),
            *final(a) == *old(a),
            *final(self) == *old(self),
    {
        a.value()
    }

    /// Reads an authenticated value; nothing is recorded.
    pub fn unauth2<'a, B>(a: &'a AuthTNoProofs<B>) -> (r: &'a B)
        ensures
            *r == a.value_of(),
    {
        a.value()
    }

    /// Reads an authenticated value held mutably; nothing is recorded.
    pub fn unauth_mut2<'a, B>(a: &'a mut AuthTNoProofs<B>) -> (r: &'a B)
        ensures
            *r == old(a).value_of(),
            *final(a) == *old(a),
    {
        a.value()
    }

    /// Recomputes the digest of an authenticated value from the projection of
    /// its current value.
    pub fn auth_update<B>(a: &mut AuthTNoProofs<B>, projection: &Vec<u8>)
        ensures
            final(a).wf(),
            final(a).value_of() == old(a).value_of(),
            final(a).projection_bytes() == projection@,
            final(a).signature_bytes() == sha3_256(projection@),
    {
        a.update(projection);
    }

    /// The digest of an authenticated value.
    pub fn signature<B>(a: &AuthTNoProofs<B>) -> (r: &SHashType)
        ensures
            r.bytes() == a.signature_bytes(),
    {
        a.signature()
    }

    /// Runs `f`; its result makes the computation.
    pub fn run<F: FnOnce() -> Result<A, E>>(f: F) -> (r: Self)
        requires
            f.requires(()),
        ensures
            f.ensures((), r.result_of()),
    {
        NoProofs { result: f() }
    }

    /// Runs `f`; the proofs given are ignored.
    pub fn run_with_proofs<F: FnOnce() -> Result<A, E>>(_prfs: ProofStream, f: F) -> (r: Self)
        requires
            f.requires(()),
        ensures
            f.ensures((), r.result_of()),
    {
        Self::run(f)
    }
}

impl<A, B, E> AuthType<B> for NoProofs<A, E> {
    type AuthT = AuthTNoProofs<B>;
}

impl<A, B, E> AuthContainer<B> for NoProofs<A, E> {
    type AuthT = AuthTNoProofs<Vec<AuthTNoProofs<B>>>;
}

} // verus!
