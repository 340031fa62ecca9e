//! The library's answers as authenticated computations. The publication is
//! held as one authenticated value: a prover reads it and records its
//! projection, a verifier holding only its digest checks the recorded
//! projection, decodes it (or takes the value kept from an earlier read) and
//! answers from it, and a computation without proofs just reads it.
use vstd::prelude::*;
use crate::api::{
    documents_wf, lemma_resource_answer_unique, locate_answers, resource_answers, same_answer, Api, ApiError,
    ApiResponse,
};
use crate::computation::{empty_stream, stream_view, ProofStream, SHashType};
use crate::locator::SimplifiedLocator;
use crate::no_proofs::{AuthTNoProofs, NoProofs};
use crate::protocol::{decodes_back, lemma_verifier_reads_prover_value};
use crate::prover::{AuthTProver, Prover};
use crate::publication::Publication;
use crate::verifying::{front_matches, verifier_read, AuthTVerifier, Verifier};

verus! {

impl Api {
    /// The answer to a request for the raw resource `resource_name`, as a
    /// prover computes it: it reads the publication, recording its
    /// projection, and answers as `resource` does.
    pub fn resource_prover(doc: &AuthTProver<Publication>, resource_name: Vec<u8>) -> (c: Prover<
        ApiResponse,
        ApiError,
    >)
        ensures
            resource_answers(doc.value_of(), resource_name@, c.result_of()),
            c.proofs_of() == seq![doc.projection_bytes()],
    {
        let mut c: Prover<ApiResponse, ApiError> = Prover::new(None, ApiResponse::Void);
        let p = c.unauth(doc);
        match Api::resource(p, resource_name) {
            Ok(v) => c.put(v),
            Err(e) => c.put_err(e),
        }
        assert(c.proofs_of() =~= seq![doc.projection_bytes()]);
        c
    }

    /// The answer to a request for the raw resource `resource_name`, as a
    /// verifier computes it from the proofs `proofs`: it reads the
    /// publication (see `verifier_read`) and answers from the value read as
    /// `resource` does; `None` where the read is refused (the first proof is
    /// missing, does not have the publication's digest, or does not decode).
    pub fn resource_verifier<D: Fn(&Vec<u8>) -> Option<Publication>>(
        doc: &mut AuthTVerifier<Publication>,
        resource_name: Vec<u8>,
        proofs: ProofStream,
        decode: D,
    ) -> (c: Option<Verifier<ApiResponse, ApiError>>)
        requires
            forall|b: &Vec<u8>| #[trigger] decode.requires((b,)),
        ensures
            exists|got: Option<Publication>|
                #[trigger] verifier_read(*old(doc), stream_view(&proofs), decode, *final(doc), got)
                    && match got {
                    None => c is None,
                    Some(q) => c matches Some(v) && resource_answers(q, resource_name@, v.result_of())
                        && v.proofs_of() == stream_view(&proofs).drop_first(),
                },
    {
        let mut c: Verifier<ApiResponse, ApiError> = Verifier::new(Some(&proofs), ApiResponse::Void);
        match c.unauth(doc, decode) {
            None => {
                assert(verifier_read(*old(doc), stream_view(&proofs), decode, *doc, None));
                None
            },
            Some(p) => {
                let ghost q = *p;
                let answer = Api::resource(p, resource_name);
                assert(verifier_read(*old(doc), stream_view(&proofs), decode, *doc, Some(q)));
                match answer {
                    Ok(v) => c.put(v),
                    Err(e) => c.put_err(e),
                }
                Some(c)
            },
        }
    }

    /// The answer to a request for the raw resource `resource_name`, read
    /// without proofs.
    pub fn resource_no_proofs(doc: &AuthTNoProofs<Publication>, resource_name: Vec<u8>) -> (c:
        NoProofs<ApiResponse, ApiError>)
        ensures
            resource_answers(doc.value_of(), resource_name@, c.result_of()),
    {
        let mut c: NoProofs<ApiResponse, ApiError> = NoProofs::new(None, ApiResponse::Void);
        let p = c.unauth(doc);
        match Api::resource(p, resource_name) {
            Ok(v) => c.put(v),
            Err(e) => c.put_err(e),
        }
        c
    }

    /// The answer to a locator, as a prover computes it: it reads the
    /// publication, recording its projection, and answers as `locate` does.
    pub fn locate_prover<F, G>(
        doc: &AuthTProver<Publication>,
        locator: &SimplifiedLocator,
        start_matches: F,
        end_matches: G,
    ) -> (c: Prover<ApiResponse, ApiError>) where
        F: Fn(usize, usize) -> bool,
        G: Fn(usize, usize) -> bool,
        requires
            documents_wf(doc.value_of()),
            forall|j: usize, k: usize| #[trigger] start_matches.requires((j, k)),
            forall|j: usize, k: usize| #[trigger] end_matches.requires((j, k)),
        ensures
            locate_answers(doc.value_of(), *locator, start_matches, end_matches, c.result_of()),
            c.proofs_of() == seq![doc.projection_bytes()],
    {
        let mut c: Prover<ApiResponse, ApiError> = Prover::new(None, ApiResponse::Void);
        let p = c.unauth(doc);
        match Api::locate(p, locator, start_matches, end_matches) {
            Ok(v) => c.put(v),
            Err(e) => c.put_err(e),
        }
        assert(c.proofs_of() =~= seq![doc.projection_bytes()]);
        c
    }

    /// The answer to a locator, as a verifier computes it from the proofs
    /// `proofs`: it reads the publication (see `verifier_read`) and answers
    /// from the value read as `locate` does; `None` where the read is
    /// refused.
    pub fn locate_verifier<F, G, D>(
        doc: &mut AuthTVerifier<Publication>,
        locator: &SimplifiedLocator,
        start_matches: F,
        end_matches: G,
        proofs: ProofStream,
        decode: D,
    ) -> (c: Option<Verifier<ApiResponse, ApiError>>) where
        F: Fn(usize, usize) -> bool,
        G: Fn(usize, usize) -> bool,
        D: Fn(&Vec<u8>) -> Option<Publication>,
        requires
            old(doc).cached() matches Some(q) ==> documents_wf(q),
            forall|b: &Vec<u8>, q: Publication| #[trigger] decode.ensures((b,), Some(q)) ==> documents_wf(q),
            forall|j: usize, k: usize| #[trigger] start_matches.requires((j, k)),
            forall|j: usize, k: usize| #[trigger] end_matches.requires((j, k)),
            forall|b: &Vec<u8>| #[trigger] decode.requires((b,)),
        ensures
            exists|got: Option<Publication>|
                #[trigger] verifier_read(*old(doc), stream_view(&proofs), decode, *final(doc), got)
                    && match got {
                    None => c is None,
                    Some(q) => c matches Some(v) && locate_answers(
                        q,
                        *locator,
                        start_matches,
                        end_matches,
                        v.result_of(),
                    ) && v.proofs_of() == stream_view(&proofs).drop_first(),
                },
    {
        let mut c: Verifier<ApiResponse, ApiError> = Verifier::new(Some(&proofs), ApiResponse::Void);
        match c.unauth(doc, decode) {
            None => {
                assert(verifier_read(*old(doc), stream_view(&proofs), decode, *doc, None));
                None
            },
            Some(p) => {
                let ghost q = *p;
                let answer = Api::locate(p, locator, start_matches, end_matches);
                assert(verifier_read(*old(doc), stream_view(&proofs), decode, *doc, Some(q)));
                match answer {
                    Ok(v) => c.put(v),
                    Err(e) => c.put_err(e),
                }
                Some(c)
            },
        }
    }

    /// The answer to a locator, read without proofs.
    pub fn locate_no_proofs<F, G>(
        doc: &AuthTNoProofs<Publication>,
        locator: &SimplifiedLocator,
        start_matches: F,
        end_matches: G,
    ) -> (c: NoProofs<ApiResponse, ApiError>) where
        F: Fn(usize, usize) -> bool,
        G: Fn(usize, usize) -> bool,
        requires
            documents_wf(doc.value_of()),
            forall|j: usize, k: usize| #[trigger] start_matches.requires((j, k)),
            forall|j: usize, k: usize| #[trigger] end_matches.requires((j, k)),
        ensures
            locate_answers(doc.value_of(), *locator, start_matches, end_matches, c.result_of()),
    {
        let mut c: NoProofs<ApiResponse, ApiError> = NoProofs::new(None, ApiResponse::Void);
        let p = c.unauth(doc);
        match Api::locate(p, locator, start_matches, end_matches) {
            Ok(v) => c.put(v),
            Err(e) => c.put_err(e),
        }
        c
    }
    /// The answer to a request for the raw resource `resource_name` about
    /// the publication registered under the digest `doc`, as a verifier
    /// computes it from `proofs`: the first proof must have that digest and
    /// is decoded with `decode`; `None` where it is missing, does not have
    /// the digest, or does not decode.
    pub fn api_resource_verifier<D: Fn(&Vec<u8>) -> Option<Publication>>(
        doc: &SHashType,
        resource_name: Vec<u8>,
        proofs: ProofStream,
        decode: D,
    ) -> (c: Option<Verifier<ApiResponse, ApiError>>)
        requires
            forall|b: &Vec<u8>| #[trigger] decode.requires((b,)),
        ensures
            !front_matches(stream_view(&proofs), doc.bytes()) ==> c is None,
            front_matches(stream_view(&proofs), doc.bytes()) ==> exists|p: Vec<u8>, o: Option<Publication>|
                #[trigger] decode.ensures((&p,), o) && p@ == stream_view(&proofs)[0] && match o {
                    None => c is None,
                    Some(q) => c matches Some(v) && resource_answers(q, resource_name@, v.result_of())
                        && v.proofs_of() == stream_view(&proofs).drop_first(),
                },
    {
        let mut held: AuthTVerifier<Publication> = AuthTVerifier::from_digest(doc);
        let ghost before = held;
        let c = Self::resource_verifier(&mut held, resource_name, proofs, decode);
        proof {
            let got = choose|got: Option<Publication>|
                #[trigger] verifier_read(before, stream_view(&proofs), decode, held, got) && match got {
                    None => c is None,
                    Some(q) => c matches Some(v) && resource_answers(q, resource_name@, v.result_of())
                        && v.proofs_of() == stream_view(&proofs).drop_first(),
                };
            assert(verifier_read(before, stream_view(&proofs), decode, held, got));
        }
        c
    }

    /// The answer to a locator about the publication registered under the
    /// digest `doc`, as a verifier computes it from `proofs` (as
    /// `api_resource_verifier` reads the publication).
    pub fn api_locate_verifier<F, G, D>(
        doc: &SHashType,
        locator: &SimplifiedLocator,
        start_matches: F,
        end_matches: G,
        proofs: ProofStream,
        decode: D,
    ) -> (c: Option<Verifier<ApiResponse, ApiError>>) where
        F: Fn(usize, usize) -> bool,
        G: Fn(usize, usize) -> bool,
        D: Fn(&Vec<u8>) -> Option<Publication>,
        requires
            forall|b: &Vec<u8>, q: Publication| #[trigger] decode.ensures((b,), Some(q)) ==> documents_wf(q),
            forall|j: usize, k: usize| #[trigger] start_matches.requires((j, k)),
            forall|j: usize, k: usize| #[trigger] end_matches.requires((j, k)),
            forall|b: &Vec<u8>| #[trigger] decode.requires((b,)),
        ensures
            !front_matches(stream_view(&proofs), doc.bytes()) ==> c is None,
            front_matches(stream_view(&proofs), doc.bytes()) ==> exists|p: Vec<u8>, o: Option<Publication>|
                #[trigger] decode.ensures((&p,), o) && p@ == stream_view(&proofs)[0] && match o {
                    None => c is None,
                    Some(q) => c matches Some(v) && locate_answers(
                        q,
                        *locator,
                        start_matches,
                        end_matches,
                        v.result_of(),
                    ) && v.proofs_of() == stream_view(&proofs).drop_first(),
                },
    {
        let mut held: AuthTVerifier<Publication> = AuthTVerifier::from_digest(doc);
        let ghost before = held;
        let c = Self::locate_verifier(
            &mut held,
            locator,
            start_matches,
            end_matches,
            proofs,
            decode,
        );
        proof {
            let got = choose|got: Option<Publication>|
                #[trigger] verifier_read(before, stream_view(&proofs), decode, held, got) && match got {
                    None => c is None,
                    Some(q) => c matches Some(v) && locate_answers(
                        q,
                        *locator,
                        start_matches,
                        end_matches,
                        v.result_of(),
                    ) && v.proofs_of() == stream_view(&proofs).drop_first(),
                };
            assert(verifier_read(before, stream_view(&proofs), decode, held, got));
        }
        c
    }
    /// A question about the publication answered by a prover: it reads the
    /// publication, recording its projection, and the answer is what `query`
    /// gives on it.
    pub fn ask_prover<R, Q: Fn(&Publication) -> R>(doc: &AuthTProver<Publication>, query: Q) -> (c:
        Prover<R, ApiError>)
        requires
            query.requires((&doc.value_of(),)),
        ensures
            exists|r: R| #[trigger] query.ensures((&doc.value_of(),), r) && c.result_of() == Ok::<R, ApiError>(r),
            c.proofs_of() == seq![doc.projection_bytes()],
    {
        let mut s = empty_stream();
        let p = Prover::<R, ApiError>::unauth2(doc, &mut s);
        let r = query(p);
        assert(stream_view(&s) =~= seq![doc.projection_bytes()]);
        Prover::new(Some(&s), r)
    }

    /// A question about the publication answered by a verifier from the
    /// proofs `proofs`: it reads the publication (see `verifier_read`) and
    /// the answer is what `query` gives on the value read; `None` where the
    /// read is refused.
    pub fn ask_verifier<R, Q: Fn(&Publication) -> R, D: Fn(&Vec<u8>) -> Option<Publication>>(
        doc: &mut AuthTVerifier<Publication>,
        query: Q,
        proofs: ProofStream,
        decode: D,
    ) -> (c: Option<Verifier<R, ApiError>>)
        requires
            forall|q: &Publication| #[trigger] query.requires((q,)),
            forall|b: &Vec<u8>| #[trigger] decode.requires((b,)),
        ensures
            exists|got: Option<Publication>|
                #[trigger] verifier_read(*old(doc), stream_view(&proofs), decode, *final(doc), got)
                    && match got {
                    None => c is None,
                    Some(q) => c matches Some(v) && (exists|r: R|
                        #[trigger] query.ensures((&q,), r) && v.result_of() == Ok::<R, ApiError>(r))
                        && v.proofs_of() == stream_view(&proofs).drop_first(),
                },
    {
        let mut reader: Verifier<(), ApiError> = Verifier::new(Some(&proofs), ());
        match reader.unauth(doc, decode) {
            None => {
                assert(verifier_read(*old(doc), stream_view(&proofs), decode, *doc, None));
                None
            },
            Some(p) => {
                let ghost q = *p;
                let r = query(p);
                assert(verifier_read(*old(doc), stream_view(&proofs), decode, *doc, Some(q)));
                let left = reader.transfer_proofs();
                Some(Verifier::new(Some(&left), r))
            },
        }
    }

    /// A question about the publication answered without proofs.
    pub fn ask_no_proofs<R, Q: Fn(&Publication) -> R>(doc: &AuthTNoProofs<Publication>, query: Q) -> (c:
        NoProofs<R, ApiError>)
        requires
            query.requires((&doc.value_of(),)),
        ensures
            exists|r: R| #[trigger] query.ensures((&doc.value_of(),), r) && c.result_of() == Ok::<R, ApiError>(r),
    {
        let p = NoProofs::<R, ApiError>::unauth2(doc);
        let r = query(p);
        NoProofs::new(None, r)
    }
}

/// Replaying a prover's resource answer: a verifier that holds the digest of
/// the publication the prover read and is given the proofs the prover
/// recorded accepts them, consumes them all and, where decoding gives back
/// the publication from its projection, says what the prover said.
pub proof fn lemma_resource_round_trip<D: Fn(&Vec<u8>) -> Option<Publication>>(
    doc: AuthTProver<Publication>,
    name: Seq<u8>,
    prover_result: Result<ApiResponse, ApiError>,
    prover_proofs: Seq<Seq<u8>>,
    before: AuthTVerifier<Publication>,
    decode: D,
    after: AuthTVerifier<Publication>,
    got: Option<Publication>,
    verifier_result: Result<ApiResponse, ApiError>,
    verifier_left: Seq<Seq<u8>>,
)
    requires
        doc.wf(),
        resource_answers(doc.value_of(), name, prover_result),
        prover_proofs == seq![doc.projection_bytes()],
        before.signature_bytes() == doc.signature_bytes(),
        before.cached() is None || before.cached() == Some(doc.value_of()),
        decodes_back(decode, doc),
        verifier_read(before, prover_proofs, decode, after, got),
        got matches Some(q) ==> resource_answers(q, name, verifier_result) && verifier_left
            == prover_proofs.drop_first(),
    ensures
        got == Some(doc.value_of()),
        verifier_left == Seq::<Seq<u8>>::empty(),
        same_answer(prover_result, verifier_result),
{
    assert(seq![doc.projection_bytes()] + Seq::<Seq<u8>>::empty() =~= prover_proofs);
    lemma_verifier_reads_prover_value(doc, Seq::empty(), before, decode, after, got);
    lemma_resource_answer_unique(doc.value_of(), name, prover_result, verifier_result);
}

/// Replaying a prover's answer to a locator: the verifier accepts the
/// prover's proofs, consumes them all and, where decoding gives back the
/// publication from its projection, answers the same locator about the
/// publication the prover read.
pub proof fn lemma_locate_round_trip<F, G, D>(
    doc: AuthTProver<Publication>,
    locator: SimplifiedLocator,
    start_matches: F,
    end_matches: G,
    prover_proofs: Seq<Seq<u8>>,
    before: AuthTVerifier<Publication>,
    decode: D,
    after: AuthTVerifier<Publication>,
    got: Option<Publication>,
    verifier_result: Result<ApiResponse, ApiError>,
    verifier_left: Seq<Seq<u8>>,
) where
    F: Fn(usize, usize) -> bool,
    G: Fn(usize, usize) -> bool,
    D: Fn(&Vec<u8>) -> Option<Publication>,

    requires
        doc.wf(),
        prover_proofs == seq![doc.projection_bytes()],
        before.signature_bytes() == doc.signature_bytes(),
        before.cached() is None || before.cached() == Some(doc.value_of()),
        decodes_back(decode, doc),
        verifier_read(before, prover_proofs, decode, after, got),
        got matches Some(q) ==> locate_answers(
            q,
            locator,
            start_matches,
            end_matches,
            verifier_result,
        ) && verifier_left == prover_proofs.drop_first(),
    ensures
        got == Some(doc.value_of()),
        verifier_left == Seq::<Seq<u8>>::empty(),
        locate_answers(doc.value_of(), locator, start_matches, end_matches, verifier_result),
{
    assert(seq![doc.projection_bytes()] + Seq::<Seq<u8>>::empty() =~= prover_proofs);
    lemma_verifier_reads_prover_value(doc, Seq::empty(), before, decode, after, got);
}

/// Replaying a prover's answer to any question: the verifier accepts the
/// prover's proofs, consumes them all and, where decoding gives back the
/// publication from its projection, its answer is an answer of the question
/// about the publication the prover read, as the prover's is.
pub proof fn lemma_ask_round_trip<R, Q, D>(
    doc: AuthTProver<Publication>,
    query: Q,
    prover_answer: R,
    prover_proofs: Seq<Seq<u8>>,
    before: AuthTVerifier<Publication>,
    decode: D,
    after: AuthTVerifier<Publication>,
    got: Option<Publication>,
    verifier_answer: R,
    verifier_left: Seq<Seq<u8>>,
) where Q: Fn(&Publication) -> R, D: Fn(&Vec<u8>) -> Option<Publication>
    requires
        doc.wf(),
        query.ensures((&doc.value_of(),), prover_answer),
        prover_proofs == seq![doc.projection_bytes()],
        before.signature_bytes() == doc.signature_bytes(),
        before.cached() is None || before.cached() == Some(doc.value_of()),
        decodes_back(decode, doc),
        verifier_read(before, prover_proofs, decode, after, got),
        got matches Some(q) ==> query.ensures((&q,), verifier_answer) && verifier_left
            == prover_proofs.drop_first(),
    ensures
        got == Some(doc.value_of()),
        verifier_left == Seq::<Seq<u8>>::empty(),
        query.ensures((&doc.value_of(),), verifier_answer),
{
    assert(seq![doc.projection_bytes()] + Seq::<Seq<u8>>::empty() =~= prover_proofs);
    lemma_verifier_reads_prover_value(doc, Seq::empty(), before, decode, after, got);
}

} // verus!
