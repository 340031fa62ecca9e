//! The verifier: a computation that holds only digests and consumes, in
//! order, the projections a prover recorded, checking each against the
//! digest it is read for.
use vstd::prelude::*;
use std::collections::VecDeque;
use crate::computation::{
    clone_stream, empty_stream, hash, sha3_256, stream_view, AuthContainer, AuthType,
    AuthTypeReq, AuthUpdate, ProofStream, SHashType, UnAuth, UnAuthMut,
};

verus! {

broadcast use vstd::std_specs::vecdeque::group_vec_dequeue_axioms;

/// An authenticated value on the verifier's side: its digest, and the value
/// once one has been decoded from an accepted projection.
pub struct AuthTVerifier<A> {
    digest: SHashType,
    value: Option<A>,
}

/// Whether the first projection of `proofs` is one whose digest is `digest`.
pub open spec fn front_matches(proofs: Seq<Seq<u8>>, digest: Seq<u8>) -> bool {
    proofs.len() > 0 && sha3_256(proofs[0]) == digest
}

/// Checks the first projection of `proofs` against `digest` and removes it.
fn check_front(proofs: &mut ProofStream, digest: &SHashType) -> (r: Option<Vec<u8>>)
    ensures
        front_matches(stream_view(old(proofs)), digest.bytes()) ==> r is Some && r.unwrap()@
            == stream_view(old(proofs))[0] && stream_view(final(proofs)) == stream_view(
            old(proofs),
        ).drop_first(),
        !front_matches(stream_view(old(proofs)), digest.bytes()) ==> r is None && stream_view(
            final(proofs),
        ) == stream_view(old(proofs)),
{
    if proofs.len() == 0 {
        return None;
    }
    let h = hash(proofs[0].as_slice());
    if !h.same(digest) {
        return None;
    }
    let ghost before = stream_view(proofs);
    let x = proofs.pop_front();
    match x {
        Some(p) => {
            assert(stream_view(proofs) =~= before.drop_first());
            Some(p)
        },
        None => None,
    }
}

impl<A> AuthTVerifier<A> {
    pub closed spec fn signature_bytes(&self) -> Seq<u8> {
        self.digest.bytes()
    }

    pub closed spec fn cached(&self) -> Option<A> {
        self.value
    }

    /// Authenticates a value by the digest of its projection; the value itself
    /// is not kept.
    pub fn new(projection: &Vec<u8>) -> (r: Self)
        ensures
            r.signature_bytes() == sha3_256(projection@),
            r.cached() is None,
    {
        AuthTVerifier { digest: hash(projection.as_slice()), value: None }
    }

    /// The authenticated value whose digest is `h`.
    pub fn from_digest(h: &SHashType) -> (r: Self)
        ensures
            r.signature_bytes() == h.bytes(),
            r.cached() is None,
    {
        AuthTVerifier { digest: *h, value: None }
    }

    /// The digest.
    pub fn signature(&self) -> (r: &SHashType)
        ensures
            r.bytes() == self.signature_bytes(),
    {
        &self.digest
    }

    /// Whether a value has been decoded and kept.
    pub fn has_value(&self) -> (r: bool)
        ensures
            r == self.cached() is Some,
    {
        self.value.is_some()
    }

    /// The value decoded and kept, if any.
    pub fn value(&self) -> (r: Option<&A>)
        ensures
            r matches Some(v) ==> self.cached() == Some(*v),
            r is None <==> self.cached() is None,
    {
        match &self.value {
            Some(v) => Some(v),
            None => None,
        }
    }

    /// Keeps the value decoded from an accepted projection.
    pub fn record_value(&mut self, value: A)
        ensures
            final(self).cached() == Some(value),
            final(self).signature_bytes() == old(self).signature_bytes(),
    {
        self.value = Some(value);
    }
}

impl<A> AuthTypeReq for AuthTVerifier<A> {}

impl<A> UnAuth<A> for AuthTVerifier<A> {
    open spec fn unauth_step(&self, before: Seq<Seq<u8>>) -> Option<(Seq<u8>, Seq<Seq<u8>>)> {
        if front_matches(before, self.signature_bytes()) {
            Some((before[0], before.drop_first()))
        } else {
            None
        }
    }

    /// Takes the first projection of the stream when its digest is the
    /// value's digest; refuses the read otherwise.
    fn unauth(&self, proofs: &mut ProofStream) -> (r: Option<Vec<u8>>) {
        check_front(proofs, &self.digest)
    }
}

impl<A> UnAuthMut<A> for AuthTVerifier<A> {
    fn unauth_mut(&mut self, proofs: &mut ProofStream) -> (r: Option<Vec<u8>>) {
        self.unauth(proofs)
    }
}

impl<A> AuthUpdate for AuthTVerifier<A> {
    open spec fn digest_bytes(&self) -> Seq<u8> {
        self.signature_bytes()
    }

    /// Stores the digest of the projection of the current value.
    fn update(&mut self, projection: &Vec<u8>)
        ensures
            final(self).cached() == old(self).cached(),
    {
        self.digest = hash(projection.as_slice());
    }
}

/// What a verifier's read of the value `before` against `proofs` gives
/// (`got`, `None` where the read is refused) and how it leaves the value
/// (`after`): the first proof must have the value's digest; a value kept from
/// an earlier read is given back as it is; else the proof is decoded with
/// `decode`, and the decoded value is kept and given.
pub open spec fn verifier_read<B, D: Fn(&Vec<u8>) -> Option<B>>(
    before: AuthTVerifier<B>,
    proofs: Seq<Seq<u8>>,
    decode: D,
    after: AuthTVerifier<B>,
    got: Option<B>,
) -> bool {
    if !front_matches(proofs, before.signature_bytes()) {
        got is None && after == before
    } else {
        match before.cached() {
            Some(v) => got == Some(v) && after == before,
            None => exists|p: Vec<u8>, o: Option<B>|
                #[trigger] decode.ensures((&p,), o) && p@ == proofs[0] && match o {
                    Some(v) => got == Some(v) && after.cached() == Some(v)
                        && after.signature_bytes() == before.signature_bytes(),
                    None => got is None && after == before,
                },
        }
    }
}

/// Reads the authenticated value `a` against the stream `proofs` (see
/// `verifier_read`): the first proof is consumed where the read is accepted,
/// and nothing is consumed where it is refused.
fn read_value<'a, B, D: Fn(&Vec<u8>) -> Option<B>>(
    proofs: &mut ProofStream,
    a: &'a mut AuthTVerifier<B>,
    decode: D,
) -> (r: Option<&'a B>)
    requires
        forall|b: &Vec<u8>| #[trigger] decode.requires((b,)),
    ensures
        verifier_read(
            *old(a),
            stream_view(old(proofs)),
            decode,
            *final(a),
            match r {
                Some(v) => Some(*v),
                None => None,
            },
        ),
        r is Some ==> stream_view(final(proofs)) == stream_view(old(proofs)).drop_first(),
        r is None ==> stream_view(final(proofs)) == stream_view(old(proofs)),
{
    if proofs.len() == 0 {
        return None;
    }
    let g = hash(proofs[0].as_slice());
    if !g.same(&a.digest) {
        return None;
    }
    let ghost before = stream_view(proofs);
    if a.value.is_none() {
        let decoded = decode(&proofs[0]);
        assert(proofs@[0]@ == before[0]);
        match decoded {
            None => {
                return None;
            },
            Some(v) => {
                a.value = Some(v);
            },
        }
    }
    let _ = proofs.pop_front();
    assert(stream_view(proofs) =~= before.drop_first());
    match &a.value {
        Some(v) => Some(v),
        None => None,
    }
}

/// A computation that returns a result of type `A` (or an error `E`) and
/// checks what it reads against the proofs it was given.
pub struct Verifier<A, E> {
    result: Result<A, E>,
    proofs: ProofStream,
}

impl<A, E> Verifier<A, E> {
    pub closed spec fn result_of(&self) -> Result<A, E> {
        self.result
    }

    pub closed spec fn proofs_of(&self) -> Seq<Seq<u8>> {
        stream_view(&self.proofs)
    }

    /// A computation returning `initial` that will check against a copy of
    /// `prfs` (or against no proofs).
    pub fn new(prfs: Option<&ProofStream>, initial: A) -> (r: Self)
        ensures
            r.result_of() == Ok::<A, E>(initial),
            r.proofs_of() == match prfs {
                Some(p) => stream_view(p),
                None => Seq::<Seq<u8>>::empty(),
            },
    {
        match prfs {
            Some(p) => Verifier { result: Ok(initial), proofs: clone_stream(p) },
            None => Verifier { result: Ok(initial), proofs: empty_stream() },
        }
    }

    /// The proofs not yet consumed.
    pub fn get_proofs(&self) -> (r: &ProofStream)
        ensures
            stream_view(r) == self.proofs_of(),
    {
        &self.proofs
    }

    /// Gives up the computation and keeps its remaining proofs.
    pub fn transfer_proofs(self) -> (r: ProofStream)
        ensures
            stream_view(&r) == self.proofs_of(),
    {
        self.proofs
    }

    /// The computation returning `r`: the first proof must be the projection
    /// of `r` (same digest); it is consumed.
    pub fn pure(&mut self, r: A, projection: &Vec<u8>) -> (c: Self)
        requires
            front_matches(old(self).proofs_of(), sha3_256(projection@)),
        ensures
            c.result_of() == Ok::<A, E>(r),
            c.proofs_of() == Seq::<Seq<u8>>::empty(),
            final(self).proofs_of() == old(self).proofs_of().drop_first(),
            final(self).result_of() == old(self).result_of(),
    {
        let h = hash(projection.as_slice());
        let _ = check_front(&mut self.proofs, &h);
        Verifier { result: Ok(r), proofs: empty_stream() }
    }

    /// `pure`, refused (`None`, nothing consumed) when the first proof is
    /// missing or is not the projection of `r`.
    pub fn try_pure(&mut self, r: A, projection: &Vec<u8>) -> (c: Option<Self>)
        ensures
            front_matches(old(self).proofs_of(), sha3_256(projection@)) ==> (c matches Some(v) && v.result_of()
                == Ok::<A, E>(r) && v.proofs_of() == Seq::<Seq<u8>>::empty() && final(self).proofs_of()
                == old(self).proofs_of().drop_first()),
            !front_matches(old(self).proofs_of(), sha3_256(projection@)) ==> c is None && final(self).proofs_of()
                == old(self).proofs_of(),
            final(self).result_of() == old(self).result_of(),
    {
        if self.next_proof_matches(projection) {
            Some(self.pure(r, projection))
        } else {
            None
        }
    }

    /// Whether the first proof has the digest of `projection`.
    pub fn next_proof_matches(&self, projection: &Vec<u8>) -> (b: bool)
        ensures
            b == front_matches(self.proofs_of(), sha3_256(projection@)),
    {
        if self.proofs.len() == 0 {
            return false;
        }
        let h = hash(projection.as_slice());
        let g = hash(self.proofs[0].as_slice());
        g.same(&h)
    }

    /// Runs `f` on the result, when there is one, and takes its result and
    /// appends its remaining proofs.
    pub fn bind<F: FnOnce(&A) -> Self>(&mut self, f: F)
        requires
            old(self).result_of() is Ok ==> f.requires((&old(self).result_of()->Ok_0,)),
        ensures
            old(self).result_of() is Err ==> *final(self) == *old(self),
            old(self).result_of() is Ok ==> exists|p: Self|
                #[trigger] f.ensures((&old(self).result_of()->Ok_0,), p) && final(self).result_of()
                    == p.result_of() && final(self).proofs_of() == old(self).proofs_of()
                    + p.proofs_of(),
    {
        match &self.result {
            Ok(x) => {
                let p = f(x);
                let ghost old_proofs = self.proofs_of();
                let mut more = p.proofs;
                let ghost more_view = stream_view(&more);
                self.result = p.result;
                self.proofs.append(&mut more);
                assert(self.proofs_of() =~= old_proofs + more_view);
            },
            Err(_) => {},
        }
    }

    /// The result, when the computation succeeded.
    pub fn get(&self) -> (r: Option<&A>)
        ensures
            match self.result_of() {
                Ok(x) => r == Some(&x),
                Err(_) => r is None,
            },
    {
        match &self.result {
            Ok(t) => Some(t),
            Err(_) => None,
        }
    }

    /// Sets the result.
    pub fn put(&mut self, value: A)
        ensures
            final(self).result_of() == Ok::<A, E>(value),
            final(self).proofs_of() == old(self).proofs_of(),
    {
        self.result = Ok(value);
    }

    /// Sets an error as the result.
    pub fn put_err(&mut self, e: E)
        ensures
            final(self).result_of() == Err::<A, E>(e),
            final(self).proofs_of() == old(self).proofs_of(),
    {
        self.result = Err(e);
    }

    /// Sets the result and takes the remaining proofs of another computation.
    pub fn transfer<U, F>(&mut self, value: A, from_comp: Verifier<U, F>)
        ensures
            final(self).result_of() == Ok::<A, E>(value),
            final(self).proofs_of() == from_comp.proofs_of(),
    {
        self.result = Ok(value);
        self.proofs = from_comp.transfer_proofs();
    }

    /// Authenticates a value by the digest of its projection.
    pub fn auth<B>(projection: &Vec<u8>) -> (r: AuthTVerifier<B>)
        ensures
            r.signature_bytes() == sha3_256(projection@),
            r.cached() is None,
    {
        AuthTVerifier::new(projection)
    }

    /// Reads an authenticated value and gives the value itself (see
    /// `verifier_read`): the first proof must have the value's digest and
    /// is consumed; the first accepted read decodes it with `decode` and
    /// keeps the value, later reads give the kept value back without
    /// decoding. `None`, with nothing consumed, where the read is refused.
    pub fn unauth<'a, B, D: Fn(&Vec<u8>) -> Option<B>>(
        &mut self,
        a: &'a mut AuthTVerifier<B>,
        decode: D,
    ) -> (r: Option<&'a B>)
        requires
            forall|b: &Vec<u8>| #[trigger] decode.requires((b,)),
        ensures
            verifier_read(
                *old(a),
                old(self).proofs_of(),
                decode,
                *final(a),
                match r {
                    Some(v) => Some(*v),
                    None => None,
                },
            ),
            r is Some ==> final(self).proofs_of() == old(self).proofs_of().drop_first(),
            r is None ==> final(self).proofs_of() == old(self).proofs_of(),
            final(self).result_of() == old(self).result_of(),
    {
        read_value(&mut self.proofs, a, decode)
    }

    /// Reads an authenticated value held mutably; as `unauth`.
    pub fn unauth_mut<'a, B, D: Fn(&Vec<u8>) -> Option<B>>(
        &mut self,
        a: &'a mut AuthTVerifier<B>,
        decode: D,
    ) -> (r: Option<&'a B>)
        requires
            forall|b: &Vec<u8>| #[trigger] decode.requires((b,)),
        ensures
            verifier_read(
                *old(a),
                old(self).proofs_of(),
                decode,
                *final(a),
                match r {
                    Some(v) => Some(*v),
                    None => None,
                },
            ),
            r is Some ==> final(self).proofs_of() == old(self).proofs_of().drop_first(),
            r is None ==> final(self).proofs_of() == old(self).proofs_of(),
            final(self).result_of() == old(self).result_of(),
    {
        self.unauth(a, decode)
    }

    /// Reads an authenticated value against the stream `proofs`, as
    /// `unauth` does.
    pub fn unauth2<'a, B, D: Fn(&Vec<u8>) -> Option<B>>(
        a: &'a mut AuthTVerifier<B>,
        proofs: &mut ProofStream,
        decode: D,
    ) -> (r: Option<&'a B>)
        requires
            forall|b: &Vec<u8>| #[trigger] decode.requires((b,)),
        ensures
            verifier_read(
                *old(a),
                stream_view(old(proofs)),
                decode,
                *final(a),
                match r {
                    Some(v) => Some(*v),
                    None => None,
                },
            ),
            r is Some ==> stream_view(final(proofs)) == stream_view(old(proofs)).drop_first(),
            r is None ==> stream_view(final(proofs)) == stream_view(old(proofs)),
    {
        read_value(proofs, a, decode)
    }

    /// Reads an authenticated value held mutably against the stream
    /// `proofs`; as `unauth2`.
    pub fn unauth_mut2<'a, B, D: Fn(&Vec<u8>) -> Option<B>>(
        a: &'a mut AuthTVerifier<B>,
        proofs: &mut ProofStream,
        decode: D,
    ) -> (r: Option<&'a B>)
        requires
            forall|b: &Vec<u8>| #[trigger] decode.requires((b,)),
        ensures
            verifier_read(
                *old(a),
                stream_view(old(proofs)),
                decode,
                *final(a),
                match r {
                    Some(v) => Some(*v),
                    None => None,
                },
            ),
            r is Some ==> stream_view(final(proofs)) == stream_view(old(proofs)).drop_first(),
            r is None ==> stream_view(final(proofs)) == stream_view(old(proofs)),
    {
        Self::unauth2(a, proofs, decode)
    }

    /// Checks the first proof against the value's digest and gives its bytes,
    /// consumed, without decoding them; `None`, with nothing consumed, when it
    /// is missing or does not have the digest.
    pub fn try_unauth<B>(&mut self, a: &AuthTVerifier<B>) -> (r: Option<Vec<u8>>)
        ensures
            front_matches(old(self).proofs_of(), a.signature_bytes()) ==> (r matches Some(p) && p@
                == old(self).proofs_of()[0] && final(self).proofs_of() == old(self).proofs_of().drop_first()),
            !front_matches(old(self).proofs_of(), a.signature_bytes()) ==> r is None && final(self).proofs_of()
                == old(self).proofs_of(),
            final(self).result_of() == old(self).result_of(),
    {
        check_front(&mut self.proofs, &a.digest)
    }

    /// As `try_unauth`, against the stream `proofs`.
    pub fn try_unauth2<B>(a: &AuthTVerifier<B>, proofs: &mut ProofStream) -> (r: Option<Vec<u8>>)
        ensures
            front_matches(stream_view(old(proofs)), a.signature_bytes()) ==> (r matches Some(p) && p@
                == stream_view(old(proofs))[0] && stream_view(final(proofs)) == stream_view(
                old(proofs),
            ).drop_first()),
            !front_matches(stream_view(old(proofs)), a.signature_bytes()) ==> r is None
                && stream_view(final(proofs)) == stream_view(old(proofs)),
    {
        check_front(proofs, &a.digest)
    }

    /// Recomputes the digest of an authenticated value from the projection of
    /// its current value.
    pub fn auth_update<B>(a: &mut AuthTVerifier<B>, projection: &Vec<u8>)
        ensures
            final(a).signature_bytes() == sha3_256(projection@),
            final(a).cached() == old(a).cached(),
    {
        a.update(projection);
    }

    /// The digest of an authenticated value.
    pub fn signature<B>(a: &AuthTVerifier<B>) -> (r: &SHashType)
        ensures
            r.bytes() == a.signature_bytes(),
    {
        a.signature()
    }

    /// Runs `f` on the proofs `prfs`; the result and the stream `f` hands
    /// back (what it did not consume) make the computation.
    pub fn run_with_proofs<F: FnOnce(ProofStream) -> (Result<A, E>, ProofStream)>(
        prfs: ProofStream,
        f: F,
    ) -> (r: Self)
        requires
            f.requires((prfs,)),
        ensures
            exists|out: (Result<A, E>, ProofStream)|
                #[trigger] f.ensures((prfs,), out) && r.result_of() == out.0 && r.proofs_of()
                    == stream_view(&out.1),
    {
        let (result, proofs) = f(prfs);
        Verifier { result, proofs }
    }

    /// Runs `f` on an empty stream.
    pub fn run<F: FnOnce(ProofStream) -> (Result<A, E>, ProofStream)>(f: F) -> (r: Self)
        requires
            forall|s: ProofStream| stream_view(&s) == Seq::<Seq<u8>>::empty() ==> #[trigger] f.requires((s,)),
        ensures
            exists|s: ProofStream, out: (Result<A, E>, ProofStream)|
                stream_view(&s) == Seq::<Seq<u8>>::empty() && #[trigger] f.ensures((s,), out)
                    && r.result_of() == out.0 && r.proofs_of() == stream_view(&out.1),
    {
        let s = empty_stream();
        let (result, proofs) = f(s);
        Verifier { result, proofs }
    }
}

impl<A, B, E> AuthType<B> for Verifier<A, E> {
    type AuthT = AuthTVerifier<B>;
}

impl<A, B, E> AuthContainer<B> for Verifier<A, E> {
    type AuthT = AuthTVerifier<Vec<AuthTVerifier<B>>>;
}

} // verus!
