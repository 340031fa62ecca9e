use epubcontract::computation::{empty_stream, hash, Error, HashVisitor, SHashType};
use epubcontract::no_proofs::NoProofs;
use epubcontract::prover::Prover;
use epubcontract::verifying::Verifier;

fn hex(bytes: &[u8]) -> String {
    let mut s = String::new();
    for b in bytes {
        s.push_str(&format!("{:02x}", b));
    }
    s
}

#[test]
fn hash_of_nothing_is_sha3_256_of_the_empty_string() {
    let h = hash(&[]);
    assert_eq!(
        hex(h.as_ref()),
        "a7ffc6f8bf1ed76651c14756a061d662f580ff4de43b49fa82d80a4b80f8434a"
    );
}

#[test]
fn hash_of_abc_is_sha3_256_of_abc() {
    let h = hash(b"abc");
    assert_eq!(
        hex(h.as_ref()),
        "3a985da74fe225b2045c172d6bd390bd855f086e3e9d525b46bfe24511431532"
    );
}

#[test]
fn default_digest_is_all_zero_and_digests_compare_by_bytes() {
    let z = SHashType::default();
    assert_eq!(z.as_ref(), &[0u8; 32][..]);
    assert!(hash(b"x").same(&hash(b"x")));
    assert!(!hash(b"x").same(&hash(b"y")));
    assert!(!z.same(&hash(b"")));
}

#[test]
fn prover_records_each_read_projection_in_order() {
    let a = Prover::<u8, ()>::auth(10u32, vec![1, 2]);
    let b = Prover::<u8, ()>::auth(20u32, vec![3]);
    let mut p = Prover::<u8, ()>::new(None, 0);
    assert_eq!(*p.unauth(&a), 10);
    assert_eq!(*p.unauth(&b), 20);
    assert_eq!(*p.unauth(&a), 10);
    let proofs: Vec<Vec<u8>> = p.get_proofs().iter().cloned().collect();
    assert_eq!(proofs, vec![vec![1, 2], vec![3], vec![1, 2]]);
}

#[test]
fn verifier_accepts_the_proofs_the_prover_recorded() {
    let a = Prover::<u8, ()>::auth(String::from("title"), vec![5, 6, 7]);
    let mut p = Prover::<u8, ()>::new(None, 0);
    let _ = p.unauth(&a);
    let proofs = p.transfer_proofs();

    let av = Verifier::<u8, ()>::auth::<String>(&vec![5, 6, 7]);
    assert!(Prover::<u8, ()>::signature(&a).same(Verifier::<u8, ()>::signature(&av)));
    let mut v = Verifier::<u8, ()>::new(Some(&proofs), 0);
    let read = v.try_unauth(&av);
    assert_eq!(read, Some(vec![5, 6, 7]));
    assert_eq!(v.get_proofs().len(), 0);
}

#[test]
fn verifier_refuses_a_proof_of_another_value() {
    let mut proofs = empty_stream();
    proofs.push_back(vec![9, 9]);
    let av = Verifier::<u8, ()>::auth::<String>(&vec![5, 6, 7]);
    let mut v = Verifier::<u8, ()>::new(Some(&proofs), 0);
    assert_eq!(v.try_unauth(&av), None);
    assert_eq!(v.get_proofs().len(), 1);
    assert_eq!(Verifier::<u8, ()>::try_unauth2(&av, &mut proofs), None);
    assert_eq!(proofs.len(), 1);
}

#[test]
fn verifier_refuses_when_no_proof_is_left() {
    let av = Verifier::<u8, ()>::auth::<u32>(&vec![1]);
    let mut v = Verifier::<u8, ()>::new(None, 0);
    assert_eq!(v.try_unauth(&av), None);
    assert!(!v.next_proof_matches(&vec![1]));
}

#[test]
fn verifier_pure_checks_the_projection_of_the_result() {
    let mut proofs = empty_stream();
    proofs.push_back(vec![4, 2]);
    let mut v = Verifier::<u8, ()>::new(Some(&proofs), 0);
    assert!(v.try_pure(1, &vec![4, 3]).is_none());
    let c = v.try_pure(42, &vec![4, 2]).unwrap();
    assert_eq!(c.get(), Some(&42));
    assert_eq!(v.get_proofs().len(), 0);
}

#[test]
fn prover_pure_and_put_set_the_result() {
    let mut p = Prover::<u32, String>::new(None, 1);
    let c = p.pure(5, vec![8]);
    assert_eq!(c.get(), Some(&5));
    assert_eq!(c.get_proofs().len(), 1);
    p.put(3);
    assert_eq!(p.get(), Some(&3));
    p.put_err(String::from("bad"));
    assert_eq!(p.get(), None);
}

#[test]
fn prover_bind_appends_the_proofs_of_the_next_step() {
    let a = Prover::<u32, ()>::auth(7u32, vec![1]);
    let mut p = Prover::<u32, ()>::new(None, 2);
    let _ = p.unauth(&a);
    p.bind(|x: &u32| {
        let mut q = Prover::<u32, ()>::new(None, *x + 1);
        q.proofs.push_back(vec![2]);
        q
    });
    assert_eq!(p.get(), Some(&3));
    let proofs: Vec<Vec<u8>> = p.get_proofs().iter().cloned().collect();
    assert_eq!(proofs, vec![vec![1], vec![2]]);
}

#[test]
fn auth_update_recomputes_the_digest() {
    let mut a = Prover::<u8, ()>::auth(1u32, vec![1]);
    Prover::<u8, ()>::auth_update(&mut a, &vec![2]);
    assert!(Prover::<u8, ()>::signature(&a).same(&hash(&[2])));
    assert_eq!(a.projection(), &vec![2]);
}

#[test]
fn no_proofs_reads_values_without_recording() {
    let a = NoProofs::<u8, ()>::auth(11u32, vec![1]);
    let mut c = NoProofs::<u8, ()>::new(None, 0);
    assert_eq!(*c.unauth(&a), 11);
    assert_eq!(c.transfer_proofs().len(), 0);
}

#[test]
fn error_text_names_its_kind() {
    assert_eq!(Error::Shallow(String::from("x")).to_string(), "Shallow x");
    assert_eq!(Error::UnShallow(String::from("y")).to_string(), "UnShallow y");
}

#[test]
fn hash_visitor_takes_the_digest_bytes() {
    let bytes = [7u8; 32];
    let h = HashVisitor.visit_bytes(&bytes);
    assert_eq!(h.as_ref(), &bytes[..]);
}

fn decode_number(b: &Vec<u8>) -> Option<u32> {
    if b.len() == 1 {
        Some(b[0] as u32 * 100)
    } else {
        None
    }
}

#[test]
fn verifier_reads_decode_once_and_keep_the_value() {
    let mut proofs = empty_stream();
    proofs.push_back(vec![7]);
    proofs.push_back(vec![7]);
    proofs.push_back(vec![8]);
    let mut av = Verifier::<u8, ()>::auth::<u32>(&vec![7]);
    let mut v = Verifier::<u8, ()>::new(Some(&proofs), 0);
    assert_eq!(v.unauth(&mut av, decode_number), Some(&700));
    // The second proof is checked against the digest but not decoded.
    let never = |_: &Vec<u8>| -> Option<u32> { None };
    assert_eq!(v.unauth(&mut av, never), Some(&700));
    assert_eq!(v.get_proofs().len(), 1);
    // A proof of another value is refused and left in place.
    assert_eq!(v.unauth(&mut av, decode_number), None);
    assert_eq!(v.get_proofs().len(), 1);
    let mut fresh = Verifier::<u8, ()>::auth::<u32>(&vec![8]);
    let mut stream = v.transfer_proofs();
    assert_eq!(Verifier::<u8, ()>::unauth2(&mut fresh, &mut stream, never), None);
    assert_eq!(stream.len(), 1);
    assert_eq!(Verifier::<u8, ()>::unauth2(&mut fresh, &mut stream, decode_number), Some(&800));
    assert!(stream.is_empty());
}
