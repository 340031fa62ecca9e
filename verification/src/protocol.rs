//! What a prover's reads and a verifier's reads have to do with each other.
use vstd::prelude::*;
use crate::computation::{sha3_256, UnAuth};
use crate::prover::AuthTProver;
use crate::verifying::{front_matches, verifier_read, AuthTVerifier};
use crate::no_proofs::AuthTNoProofs;

verus! {

/// The stream left after the prover reads `auths` in order, starting from
/// `stream`.
pub open spec fn prover_record<A>(auths: Seq<AuthTProver<A>>, stream: Seq<Seq<u8>>) -> Seq<Seq<u8>>
    decreases auths.len(),
{
    if auths.len() == 0 {
        stream
    } else {
        prover_record(auths.drop_first(), auths[0].unauth_step(stream).unwrap().1)
    }
}

/// The projections a verifier reads for `auths`, in order, from `stream`, and
/// what is left of the stream; `None` when one of the reads is refused.
pub open spec fn verifier_replay<B>(auths: Seq<AuthTVerifier<B>>, stream: Seq<Seq<u8>>) -> Option<
    (Seq<Seq<u8>>, Seq<Seq<u8>>),
>
    decreases auths.len(),
{
    if auths.len() == 0 {
        Some((Seq::empty(), stream))
    } else {
        match auths[0].unauth_step(stream) {
            None => None,
            Some((p, rest)) => match verifier_replay(auths.drop_first(), rest) {
                None => None,
                Some((outs, left)) => Some((seq![p] + outs, left)),
            },
        }
    }
}

/// The projections of a sequence of prover-side values.
pub open spec fn projections<A>(auths: Seq<AuthTProver<A>>) -> Seq<Seq<u8>> {
    auths.map_values(|a: AuthTProver<A>| a.projection_bytes())
}

/// Whether `decode` gives back the value of `p` from its projection.
pub open spec fn decodes_back<B, D: Fn(&Vec<u8>) -> Option<B>>(decode: D, p: AuthTProver<B>) -> bool {
    forall|b: Vec<u8>, o: Option<B>|
        #[trigger] decode.ensures((&b,), o) && b@ == p.projection_bytes() ==> o == Some(p.value_of())
}

/// A verifier that reads a value with the digest of a prover's value, from
/// the proofs the prover recorded for it (followed by anything else), accepts
/// the read, consumes exactly that proof and, where decoding gives back the
/// value from its projection (or the value was kept from an earlier read),
/// gets the prover's value.
pub proof fn lemma_verifier_reads_prover_value<B, D: Fn(&Vec<u8>) -> Option<B>>(
    p: AuthTProver<B>,
    rest: Seq<Seq<u8>>,
    before: AuthTVerifier<B>,
    decode: D,
    after: AuthTVerifier<B>,
    got: Option<B>,
)
    requires
        p.wf(),
        before.signature_bytes() == p.signature_bytes(),
        before.cached() is None || before.cached() == Some(p.value_of()),
        decodes_back(decode, p),
        verifier_read(before, seq![p.projection_bytes()] + rest, decode, after, got),
    ensures
        front_matches(seq![p.projection_bytes()] + rest, before.signature_bytes()),
        (seq![p.projection_bytes()] + rest).drop_first() == rest,
        got == Some(p.value_of()),
{
    let s = seq![p.projection_bytes()] + rest;
    assert(s[0] == p.projection_bytes());
    assert(s.drop_first() =~= rest);
    if before.cached() is None {
        let (b, o) = choose|b: Vec<u8>, o: Option<B>|
            #[trigger] decode.ensures((&b,), o) && b@ == s[0] && match o {
                Some(v) => got == Some(v) && after.cached() == Some(v)
                    && after.signature_bytes() == before.signature_bytes(),
                None => got is None && after == before,
            };
        assert(o == Some(p.value_of()));
    }
}

/// Each read of the prover appends the projection of the value read: after
/// reading `auths` in order, the stream is the stream before followed by
/// their projections.
pub proof fn lemma_prover_record_appends<A>(auths: Seq<AuthTProver<A>>, stream: Seq<Seq<u8>>)
    ensures
        prover_record(auths, stream) == stream + projections(auths),
    decreases auths.len(),
{
    if auths.len() == 0 {
        assert(stream + projections(auths) =~= stream);
    } else {
        let next = stream.push(auths[0].projection_bytes());
        lemma_prover_record_appends(auths.drop_first(), next);
        assert(projections(auths.drop_first()) =~= projections(auths).drop_first());
        assert(next + projections(auths.drop_first()) =~= stream + projections(auths));
    }
}

/// Replaying a prover's proofs: a verifier that reads, in the prover's order,
/// values carrying the same digests as the values the prover read, and is
/// given the stream the prover recorded (followed by anything else), accepts
/// every read, reads back exactly the projections the prover read, and leaves
/// what followed the prover's proofs.
pub proof fn lemma_verifier_accepts_prover_proofs<A, B>(
    prover_reads: Seq<AuthTProver<A>>,
    verifier_reads: Seq<AuthTVerifier<B>>,
    rest: Seq<Seq<u8>>,
)
    requires
        prover_reads.len() == verifier_reads.len(),
        forall|i: int| 0 <= i < prover_reads.len() ==> #[trigger] prover_reads[i].wf(),
        forall|i: int|
            0 <= i < prover_reads.len() ==> #[trigger] verifier_reads[i].signature_bytes()
                == prover_reads[i].signature_bytes(),
    ensures
        verifier_replay(verifier_reads, prover_record(prover_reads, Seq::empty()) + rest) == Some(
            (projections(prover_reads), rest),
        ),
    decreases prover_reads.len(),
{
    lemma_prover_record_appends(prover_reads, Seq::empty());
    assert(Seq::<Seq<u8>>::empty() + projections(prover_reads) =~= projections(prover_reads));
    lemma_replay_projections(prover_reads, verifier_reads, rest);
}

proof fn lemma_replay_projections<A, B>(
    prover_reads: Seq<AuthTProver<A>>,
    verifier_reads: Seq<AuthTVerifier<B>>,
    rest: Seq<Seq<u8>>,
)
    requires
        prover_reads.len() == verifier_reads.len(),
        forall|i: int| 0 <= i < prover_reads.len() ==> #[trigger] prover_reads[i].wf(),
        forall|i: int|
            0 <= i < prover_reads.len() ==> #[trigger] verifier_reads[i].signature_bytes()
                == prover_reads[i].signature_bytes(),
    ensures
        verifier_replay(verifier_reads, projections(prover_reads) + rest) == Some(
            (projections(prover_reads), rest),
        ),
    decreases prover_reads.len(),
{
    let stream = projections(prover_reads) + rest;
    if prover_reads.len() == 0 {
        assert(stream =~= rest);
        assert(projections(prover_reads) =~= Seq::<Seq<u8>>::empty());
    } else {
        let p0 = prover_reads[0];
        assert(p0.wf());
        assert(verifier_reads[0].signature_bytes() == p0.signature_bytes());
        assert(stream[0] == p0.projection_bytes());
        let tail_p = prover_reads.drop_first();
        let tail_v = verifier_reads.drop_first();
        assert forall|i: int| 0 <= i < tail_p.len() implies #[trigger] tail_p[i].wf() by {
            assert(prover_reads[i + 1].wf());
        }
        assert forall|i: int|
            0 <= i < tail_p.len() implies #[trigger] tail_v[i].signature_bytes()
            == tail_p[i].signature_bytes() by {
            assert(verifier_reads[i + 1].signature_bytes() == prover_reads[i + 1].signature_bytes());
        }
        assert(projections(tail_p) =~= projections(prover_reads).drop_first());
        assert(stream.drop_first() =~= projections(tail_p) + rest);
        lemma_replay_projections(tail_p, tail_v, rest);
        assert(seq![p0.projection_bytes()] + projections(tail_p) =~= projections(prover_reads));
    }
}

/// Every read a verifier accepts hands out a projection whose digest is the
/// digest of the value read, and the reads consume exactly a prefix of the
/// stream, in order.
pub proof fn lemma_accepted_reads_match_digests<B>(
    verifier_reads: Seq<AuthTVerifier<B>>,
    stream: Seq<Seq<u8>>,
)
    requires
        verifier_replay(verifier_reads, stream) is Some,
    ensures
        ({
            let (outs, left) = verifier_replay(verifier_reads, stream).unwrap();
            &&& outs.len() == verifier_reads.len()
            &&& stream == outs + left
            &&& forall|i: int|
                0 <= i < outs.len() ==> sha3_256(#[trigger] outs[i])
                    == verifier_reads[i].signature_bytes()
        }),
    decreases verifier_reads.len(),
{
    if verifier_reads.len() == 0 {
        let (outs, left) = verifier_replay(verifier_reads, stream).unwrap();
        assert(outs + left =~= stream);
    } else {
        let (p, rest) = verifier_reads[0].unauth_step(stream).unwrap();
        lemma_accepted_reads_match_digests(verifier_reads.drop_first(), rest);
        let (outs, left) = verifier_replay(verifier_reads, stream).unwrap();
        let (touts, tleft) = verifier_replay(verifier_reads.drop_first(), rest).unwrap();
        assert(outs == seq![p] + touts);
        assert(stream =~= seq![p] + rest);
        assert(stream =~= outs + left);
        assert forall|i: int|
            0 <= i < outs.len() implies sha3_256(#[trigger] outs[i])
            == verifier_reads[i].signature_bytes() by {
            if i > 0 {
                assert(outs[i] == touts[i - 1]);
                assert(verifier_reads.drop_first()[i - 1] == verifier_reads[i]);
            }
        }
    }
}

/// Reading without proofs gives the same projection as the prover's read of
/// a value with the same projection, and leaves the stream as it was.
pub proof fn lemma_no_proofs_reads_like_prover<A, B>(
    p: AuthTProver<A>,
    n: AuthTNoProofs<B>,
    stream: Seq<Seq<u8>>,
)
    requires
        p.projection_bytes() == n.projection_bytes(),
    ensures
        n.unauth_step(stream).unwrap().0 == p.unauth_step(stream).unwrap().0,
        n.unauth_step(stream).unwrap().1 == stream,
{
}

/// A prover-side value and a verifier-side value authenticated from the same
/// projection carry the same signature, so a verifier can be set up from the
/// prover's signature alone.
pub proof fn lemma_signatures_agree<A, B>(p: AuthTProver<A>, v: AuthTVerifier<B>, projection: Seq<u8>)
    requires
        p.wf(),
        p.projection_bytes() == projection,
        v.signature_bytes() == sha3_256(projection),
    ensures
        p.signature_bytes() == v.signature_bytes(),
{
}

} // verus!
