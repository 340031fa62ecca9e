//! The prover: a computation that returns a result together with the stream
//! of projections of every authenticated value it read.
use vstd::prelude::*;
use std::collections::VecDeque;
use crate::computation::{
    clone_bytes, clone_stream, empty_stream, hash, sha3_256, stream_view, AuthContainer, AuthType,
    AuthTypeReq, AuthUpdate, ProofStream, SHashType, UnAuth, UnAuthMut,
};

verus! {

broadcast use vstd::std_specs::vecdeque::group_vec_dequeue_axioms;

/// An authenticated value on the prover's side: the value, its projection and
/// the digest of the projection.
pub struct AuthTProver<A> {
    value: A,
    projection: Vec<u8>,
    digest: SHashType,
}

impl<A> AuthTProver<A> {
    /// The digest is the digest of the projection.
    pub open spec fn wf(&self) -> bool {
        self.signature_bytes() == sha3_256(self.projection_bytes())
    }

    pub closed spec fn value_of(&self) -> A {
        self.value
    }

    pub closed spec fn projection_bytes(&self) -> Seq<u8> {
        self.projection@
    }

    pub closed spec fn signature_bytes(&self) -> Seq<u8> {
        self.digest.bytes()
    }

    /// Authenticates `value`, whose serialized form is `projection`.
    pub fn new(value: A, projection: Vec<u8>) -> (r: Self)
        ensures
            r.wf(),
            r.value_of() == value,
            r.projection_bytes() == projection@,
            r.signature_bytes() == sha3_256(projection@),
    {
        let digest = hash(projection.as_slice());
        AuthTProver { value, projection, digest }
    }

    /// The authenticated value.
    pub fn value(&self) -> (r: &A)
        ensures
            *r == self.value_of(),
    {
        &self.value
    }

    /// The projection the value travels as.
    pub fn projection(&self) -> (r: &Vec<u8>)
        ensures
            r@ == self.projection_bytes(),
    {
        &self.projection
    }

    /// The digest of the projection.
    pub fn signature(&self) -> (r: &SHashType)
        ensures
            r.bytes() == self.signature_bytes(),
    {
        &self.digest
    }

    /// Replaces the value; its digest is recomputed by `update`.
    pub fn set_value(&mut self, value: A)
        ensures
            final(self).value_of() == value,
            final(self).projection_bytes() == old(self).projection_bytes(),
            final(self).signature_bytes() == old(self).signature_bytes(),
            old(self).wf() ==> final(self).wf(),
    {
        self.value = value;
    }
}

impl<A> AuthTypeReq for AuthTProver<A> {}

impl<A> UnAuth<A> for AuthTProver<A> {
    open spec fn unauth_step(&self, before: Seq<Seq<u8>>) -> Option<(Seq<u8>, Seq<Seq<u8>>)> {
        Some((self.projection_bytes(), before.push(self.projection_bytes())))
    }

    /// Records the projection at the end of the stream and returns it.
    fn unauth(&self, proofs: &mut ProofStream) -> (r: Option<Vec<u8>>) {
        let p = clone_bytes(&self.projection);
        let ghost before = stream_view(proofs);
        proofs.push_back(clone_bytes(&self.projection));
        assert(stream_view(proofs) =~= before.push(self.projection_bytes()));
        Some(p)
    }
}

impl<A> UnAuthMut<A> for AuthTProver<A> {
    fn unauth_mut(&mut self, proofs: &mut ProofStream) -> (r: Option<Vec<u8>>) {
        self.unauth(proofs)
    }
}

impl<A> AuthUpdate for AuthTProver<A> {
    open spec fn digest_bytes(&self) -> Seq<u8> {
        self.signature_bytes()
    }

    /// Stores the projection of the current value and its digest.
    fn update(&mut self, projection: &Vec<u8>)
        ensures
            final(self).wf(),
            final(self).projection_bytes() == projection@,
            final(self).value_of() == old(self).value_of(),
    {
        self.projection = clone_bytes(projection);
        self.digest = hash(projection.as_slice());
    }
}

/// A computation that returns a result of type `A` (or an error `E`) and
/// records the projections of what it reads.
pub struct Prover<A, E> {
    result: Result<A, E>,
    pub proofs: ProofStream,
}

impl<A, E> Prover<A, E> {
    pub closed spec fn result_of(&self) -> Result<A, E> {
        self.result
    }

    pub closed spec fn proofs_of(&self) -> Seq<Seq<u8>> {
        stream_view(&self.proofs)
    }

    /// A computation returning `initial`, starting from a copy of `prfs` or
    /// from an empty stream.
    pub fn new(prfs: Option<&ProofStream>, initial: A) -> (r: Self)
        ensures
            r.result_of() == Ok::<A, E>(initial),
            r.proofs_of() == match prfs {
                Some(p) => stream_view(p),
                None => Seq::<Seq<u8>>::empty(),
            },
    {
        match prfs {
            Some(p) => Prover { result: Ok(initial), proofs: clone_stream(p) },
            None => Prover { result: Ok(initial), proofs: empty_stream() },
        }
    }

    /// The proofs recorded so far.
    pub fn get_proofs(&self) -> (r: &ProofStream)
        ensures
            stream_view(r) == self.proofs_of(),
    {
        &self.proofs
    }

    /// Gives up the computation and keeps its proofs.
    pub fn transfer_proofs(self) -> (r: ProofStream)
        ensures
            stream_view(&r) == self.proofs_of(),
    {
        self.proofs
    }

    /// The computation returning `r`, whose proofs are the projection of `r`.
    pub fn pure(&mut self, r: A, projection: Vec<u8>) -> (c: Self)
        ensures
            c.result_of() == Ok::<A, E>(r),
            c.proofs_of() == seq![projection@],
            *final(self) == *old(self),
    {
        let mut l: ProofStream = VecDeque::new();
        l.push_back(projection);
        assert(stream_view(&l) =~= seq![projection@]);
        Prover { result: Ok(r), proofs: l }
    }

    /// Runs `f` on the result, when there is one, and takes its result and
    /// appends its proofs.
    pub fn bind<F: FnOnce(&A) -> Self>(&mut self, f: F)
        requires
            old(self).result_of() is Ok ==> f.requires((&old(self).result_of()->Ok_0,)),
        ensures
            old(self).result_of() is Err ==> *final(self) == *old(self),
            old(self).result_of() is Ok ==> exists|p: Self|
                #[trigger] f.ensures((&old(self).result_of()->Ok_0,), p) && final(self).result_of()
                    == p.result_of() && final(self).proofs_of() == old(self).proofs_of()
                    + p.proofs_of(),
    {
        match &self.result {
            Ok(x) => {
                let p = f(x);
                let ghost old_proofs = self.proofs_of();
                let mut more = p.proofs;
                let ghost more_view = stream_view(&more);
                self.result = p.result;
                self.proofs.append(&mut more);
                assert(self.proofs_of() =~= old_proofs + more_view);
            },
            Err(_) => {},
        }
    }

    /// The result, when the computation succeeded.
    pub fn get(&self) -> (r: Option<&A>)
        ensures
            match self.result_of() {
                Ok(x) => r == Some(&x),
                Err(_) => r is None,
            },
    {
        match &self.result {
            Ok(t) => Some(t),
            Err(_) => None,
        }
    }

    /// Sets the result.
    pub fn put(&mut self, value: A)
        ensures
            final(self).result_of() == Ok::<A, E>(value),
            final(self).proofs_of() == old(self).proofs_of(),
    {
        self.result = Ok(value);
    }

    /// Sets an error as the result.
    pub fn put_err(&mut self, e: E)
        ensures
            final(self).result_of() == Err::<A, E>(e),
            final(self).proofs_of() == old(self).proofs_of(),
    {
        self.result = Err(e);
    }

    /// Sets the result and takes the proofs of another computation.
    pub fn transfer<U, F>(&mut self, value: A, from_comp: Prover<U, F>)
        ensures
            final(self).result_of() == Ok::<A, E>(value),
            final(self).proofs_of() == from_comp.proofs_of(),
    {
        self.result = Ok(value);
        self.proofs = from_comp.transfer_proofs();
    }

    /// Authenticates `value`, whose serialized form is `projection`.
    pub fn auth<B>(value: B, projection: Vec<u8>) -> (r: AuthTProver<B>)
        ensures
            r.wf(),
            r.value_of() == value,
            r.projection_bytes() == projection@,
            r.signature_bytes() == sha3_256(projection@),
    {
        AuthTProver::new(value, projection)
    }

    /// Reads an authenticated value, recording its projection in the
    /// computation's proofs.
    pub fn unauth<'a, B>(&mut self, a: &'a AuthTProver<B>) -> (r: &'a B)
        ensures
            *r == a.value_of(),
            final(self).proofs_of() == old(self).proofs_of().push(a.projection_bytes()),
            final(self).result_of() == old(self).result_of(),
    {
        let _ = a.unauth(&mut self.proofs);
        a.value()
    }

    /// Reads an authenticated value held mutably, recording its projection.
    pub fn unauth_mut<'a, B>(&mut self, a: &'a mut AuthTProver<B>) -> (r: &'a B)
        ensures
            *r == old(a).value_of(),
            *final(a) == *old(a),
            final(self).proofs_of() == old(self).proofs_of().push(old(a).projection_bytes()),
            final(self).result_of() == old(self).result_of(),
    {
        let _ = a.unauth(&mut self.proofs);
        a.value()
    }

    /// Reads an authenticated value, recording its projection in `proofs`.
    pub fn unauth2<'a, B>(a: &'a AuthTProver<B>, proofs: &mut ProofStream) -> (r: &'a B)
        ensures
            *r == a.value_of(),
            stream_view(final(proofs)) == stream_view(old(proofs)).push(a.projection_bytes()),
    {
        let _ = a.unauth(proofs);
        a.value()
    }

    /// Reads an authenticated value held mutably, recording its projection in
    /// `proofs`.
    pub fn unauth_mut2<'a, B>(a: &'a mut AuthTProver<B>, proofs: &mut ProofStream) -> (r: &'a B)
        ensures
            *r == old(a).value_of(),
            *final(a) == *old(a),
            stream_view(final(proofs)) == stream_view(old(proofs)).push(old(a).projection_bytes()),
    {
        let _ = a.unauth(proofs);
        a.value()
    }

    /// Recomputes the digest of an authenticated value from the projection of
    /// its current value.
    pub fn auth_update<B>(a: &mut AuthTProver<B>, projection: &Vec<u8>)
        ensures
            final(a).wf(),
            final(a).value_of() == old(a).value_of(),
            final(a).projection_bytes() == projection@,
            final(a).signature_bytes() == sha3_256(projection@),
    {
        a.update(projection);
    }

    /// The digest of an authenticated value.
    pub fn signature<B>(a: &AuthTProver<B>) -> (r: &SHashType)
        ensures
            r.bytes() == a.signature_bytes(),
    {
        a.signature()
    }

    /// Runs `f` on an empty proof stream; the result and the stream `f`
    /// hands back make the computation.
    pub fn run<F: FnOnce(ProofStream) -> (Result<A, E>, ProofStream)>(f: F) -> (r: Self)
        requires
            forall|s: ProofStream| stream_view(&s) == Seq::<Seq<u8>>::empty() ==> #[trigger] f.requires((s,)),
        ensures
            exists|s: ProofStream, out: (Result<A, E>, ProofStream)|
                stream_view(&s) == Seq::<Seq<u8>>::empty() && #[trigger] f.ensures((s,), out)
                    && r.result_of() == out.0 && r.proofs_of() == stream_view(&out.1),
    {
        let s = empty_stream();
        let (result, proofs) = f(s);
        Prover { result, proofs }
    }

    /// A prover ignores the proofs it is given and runs `f` from an empty
    /// stream.
    pub fn run_with_proofs<F: FnOnce(ProofStream) -> (Result<A, E>, ProofStream)>(
        _prfs: ProofStream,
        f: F,
    ) -> (r: Self)
        requires
            forall|s: ProofStream| stream_view(&s) == Seq::<Seq<u8>>::empty() ==> #[trigger] f.requires((s,)),
        ensures
            exists|s: ProofStream, out: (Result<A, E>, ProofStream)|
                stream_view(&s) == Seq::<Seq<u8>>::empty() && #[trigger] f.ensures((s,), out)
                    && r.result_of() == out.0 && r.proofs_of() == stream_view(&out.1),
    {
        Self::run(f)
    }
}

impl<A, B, E> AuthType<B> for Prover<A, E> {
    type AuthT = AuthTProver<B>;
}

impl<A, B, E> AuthContainer<B> for Prover<A, E> {
    type AuthT = AuthTProver<Vec<AuthTProver<B>>>;
}

} // verus!
