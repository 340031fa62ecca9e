//! The order of texts (by character code, as `String`'s `Ord` orders UTF-8
//! text), and sorted lists of distinct keys kept in that order.
use vstd::prelude::*;
use crate::strings::chars_of;

verus! {

/// Whether `a` comes strictly before `b`, character by character.
pub open spec fn seq_lt(a: Seq<char>, b: Seq<char>) -> bool
    decreases a.len(),
{
    if a.len() == 0 {
        b.len() > 0
    } else if b.len() == 0 {
        false
    } else if (a[0] as int) < (b[0] as int) {
        true
    } else if a[0] == b[0] {
        seq_lt(a.drop_first(), b.drop_first())
    } else {
        false
    }
}

/// The order is strict and total.
pub proof fn lemma_seq_lt_total(a: Seq<char>, b: Seq<char>)
    ensures
        a == b || seq_lt(a, b) || seq_lt(b, a),
        !(seq_lt(a, b) && seq_lt(b, a)),
        !seq_lt(a, a),
    decreases a.len(),
{
    if a.len() > 0 && b.len() > 0 {
        lemma_seq_lt_total(a.drop_first(), b.drop_first());
        if a[0] == b[0] && a.drop_first() == b.drop_first() {
            assert forall|i: int| 0 <= i < a.len() implies a[i] == b[i] by {
                if i > 0 {
                    assert(a[i] == a.drop_first()[i - 1]);
                    assert(b[i] == b.drop_first()[i - 1]);
                }
            }
            assert(a =~= b);
        }
    } else if a.len() == 0 && b.len() == 0 {
        assert(a =~= b);
    }
    if a.len() > 0 {
        lemma_seq_lt_total(a.drop_first(), a.drop_first());
    }
}

/// The order is transitive.
pub proof fn lemma_seq_lt_trans(a: Seq<char>, b: Seq<char>, c: Seq<char>)
    requires
        seq_lt(a, b),
        seq_lt(b, c),
    ensures
        seq_lt(a, c),
    decreases a.len(),
{
    if a.len() > 0 && b.len() > 0 && c.len() > 0 {
        if a[0] == b[0] && b[0] == c[0] {
            lemma_seq_lt_trans(a.drop_first(), b.drop_first(), c.drop_first());
        }
    }
}

/// How two texts compare: -1, 0 or 1.
pub fn compare_str(a: &str, b: &str) -> (r: i8)
    ensures
        r == 0 <==> a@ == b@,
        r < 0 <==> seq_lt(a@, b@),
        r > 0 <==> seq_lt(b@, a@),
        -1 <= r <= 1,
{
    let va = chars_of(a);
    let vb = chars_of(b);
    let mut i: usize = 0;
    proof {
        lemma_seq_lt_total(a@, b@);
    }
    assert(va@.take(0) =~= vb@.take(0));
    assert(a@.skip(0) =~= a@);
    assert(b@.skip(0) =~= b@);
    while i < va.len() && i < vb.len()
        invariant
            0 <= i <= va.len(),
            i <= vb.len(),
            va@ == a@,
            vb@ == b@,
            va@.take(i as int) == vb@.take(i as int),
            seq_lt(a@, b@) == seq_lt(a@.skip(i as int), b@.skip(i as int)),
            seq_lt(b@, a@) == seq_lt(b@.skip(i as int), a@.skip(i as int)),
        decreases va.len() - i,
    {
        let ca = va[i];
        let cb = vb[i];
        assert(a@.skip(i as int)[0] == ca);
        assert(b@.skip(i as int)[0] == cb);
        assert(a@.skip(i as int).drop_first() =~= a@.skip(i + 1));
        assert(b@.skip(i as int).drop_first() =~= b@.skip(i + 1));
        if ca < cb {
            return -1;
        }
        if cb < ca {
            return 1;
        }
        assert(ca == cb);
        assert(va@.take(i + 1) =~= va@.take(i as int).push(ca));
        assert(vb@.take(i + 1) =~= vb@.take(i as int).push(cb));
        i = i + 1;
    }
    if va.len() == vb.len() {
        assert(va@.take(i as int) =~= va@);
        assert(vb@.take(i as int) =~= vb@);
        0
    } else if i == va.len() {
        assert(a@.skip(i as int).len() == 0);
        -1
    } else {
        assert(b@.skip(i as int).len() == 0);
        1
    }
}

} // verus!
