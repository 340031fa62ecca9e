//! Lists of (key, value) pairs read as maps: a later pair for a key replaces
//! an earlier one, as an insertion into a map does.
use vstd::prelude::*;
use crate::strings::{bytes_eq, str_eq};

verus! {

/// The map that inserting the pairs of `s` in order builds.
pub open spec fn pairs_map<K, V>(s: Seq<(K, V)>) -> Map<K, V>
    decreases s.len(),
{
    if s.len() == 0 {
        Map::empty()
    } else {
        pairs_map(s.drop_last()).insert(s.last().0, s.last().1)
    }
}

/// Text pairs, by their characters.
pub open spec fn string_pairs_view(s: Seq<(String, String)>) -> Seq<(Seq<char>, Seq<char>)> {
    s.map_values(|p: (String, String)| (p.0@, p.1@))
}

/// Byte-string pairs, by their bytes.
pub open spec fn byte_pairs_view(s: Seq<(Vec<u8>, Vec<u8>)>) -> Seq<(Seq<u8>, Seq<u8>)> {
    s.map_values(|p: (Vec<u8>, Vec<u8>)| (p.0@, p.1@))
}

/// A later pair for a key replaces any earlier one: appending `(k, v)` sets
/// `k` to `v` and leaves every other key as it was.
pub proof fn lemma_pairs_map_push<K, V>(s: Seq<(K, V)>, k: K, v: V, other: K)
    ensures
        pairs_map(s.push((k, v))) == pairs_map(s).insert(k, v),
        pairs_map(s.push((k, v)))[k] == v,
        other != k ==> pairs_map(s.push((k, v))).dom().contains(other) == pairs_map(s).dom().contains(
            other,
        ),
        other != k && pairs_map(s).dom().contains(other) ==> pairs_map(s.push((k, v)))[other]
            == pairs_map(s)[other],
{
    assert(s.push((k, v)).drop_last() =~= s);
}

/// Pairs after index `i` whose key is not `k` do not change what the map
/// holds for `k`.
pub proof fn lemma_pairs_map_suffix<K, V>(s: Seq<(K, V)>, i: int, k: K)
    requires
        0 <= i <= s.len(),
        forall|j: int| i <= j < s.len() ==> (#[trigger] s[j]).0 != k,
    ensures
        pairs_map(s).dom().contains(k) == pairs_map(s.take(i)).dom().contains(k),
        pairs_map(s).dom().contains(k) ==> pairs_map(s)[k] == pairs_map(s.take(i))[k],
    decreases s.len() - i,
{
    if i < s.len() {
        assert(s.drop_last().take(i) =~= s.take(i));
        assert forall|j: int| i <= j < s.drop_last().len() implies (#[trigger] s.drop_last()[j]).0
            != k by {
            assert(s.drop_last()[j] == s[j]);
        }
        lemma_pairs_map_suffix(s.drop_last(), i, k);
        assert(s.last() == s[s.len() - 1]);
    } else {
        assert(s.take(i) =~= s);
    }
}

/// The last pair for `k`, if it is at index `i`, gives what the map holds.
pub proof fn lemma_pairs_map_found<K, V>(s: Seq<(K, V)>, i: int, k: K)
    requires
        0 <= i < s.len(),
        s[i].0 == k,
        forall|j: int| i < j < s.len() ==> (#[trigger] s[j]).0 != k,
    ensures
        pairs_map(s).dom().contains(k),
        pairs_map(s)[k] == s[i].1,
{
    lemma_pairs_map_suffix(s, i + 1, k);
    assert(s.take(i + 1).drop_last() =~= s.take(i));
    assert(s.take(i + 1).last() == s[i]);
}

/// The value of the last pair of `v` whose key is `k`.
pub fn lookup_str<'a>(v: &'a Vec<(String, String)>, k: &str) -> (r: Option<&'a String>)
    ensures
        match r {
            Some(x) => pairs_map(string_pairs_view(v@)).dom().contains(k@) && x@ == pairs_map(
                string_pairs_view(v@),
            )[k@],
            None => !pairs_map(string_pairs_view(v@)).dom().contains(k@),
        },
{
    let ghost s = string_pairs_view(v@);
    let mut i: usize = v.len();
    while i > 0
        invariant
            i <= v.len(),
            s == string_pairs_view(v@),
            forall|j: int| i <= j < s.len() ==> (#[trigger] s[j]).0 != k@,
        decreases i,
    {
        i = i - 1;
        if str_eq(v[i].0.as_str(), k) {
            proof {
                lemma_pairs_map_found(s, i as int, k@);
            }
            return Some(&v[i].1);
        }
    }
    proof {
        lemma_pairs_map_suffix(s, 0, k@);
    }
    None
}

/// The value of the last pair of `v` whose key is `k`.
pub fn lookup_bytes<'a>(v: &'a Vec<(Vec<u8>, Vec<u8>)>, k: &[u8]) -> (r: Option<&'a Vec<u8>>)
    ensures
        match r {
            Some(x) => pairs_map(byte_pairs_view(v@)).dom().contains(k@) && x@ == pairs_map(
                byte_pairs_view(v@),
            )[k@],
            None => !pairs_map(byte_pairs_view(v@)).dom().contains(k@),
        },
{
    let ghost s = byte_pairs_view(v@);
    let mut i: usize = v.len();
    while i > 0
        invariant
            i <= v.len(),
            s == byte_pairs_view(v@),
            forall|j: int| i <= j < s.len() ==> (#[trigger] s[j]).0 != k@,
        decreases i,
    {
        i = i - 1;
        if bytes_eq(v[i].0.as_slice(), k) {
            proof {
                lemma_pairs_map_found(s, i as int, k@);
            }
            return Some(&v[i].1);
        }
    }
    proof {
        lemma_pairs_map_suffix(s, 0, k@);
    }
    None
}

/// Whether no two pairs of `s` have the same key.
pub open spec fn distinct_keys<K, V>(s: Seq<(K, V)>) -> bool {
    forall|i: int, j: int| 0 <= i < s.len() && 0 <= j < s.len() && i != j ==> (#[trigger] s[i]).0
        != (#[trigger] s[j]).0
}

/// With distinct keys, the map holds exactly the pairs.
pub proof fn lemma_distinct_pairs_map<K, V>(s: Seq<(K, V)>)
    requires
        distinct_keys(s),
    ensures
        forall|j: int| 0 <= j < s.len() ==> pairs_map(s).dom().contains(#[trigger] s[j].0) && pairs_map(s)[s[j].0] == s[j].1,
        forall|k: K| pairs_map(s).dom().contains(k) ==> exists|j: int| 0 <= j < s.len() && (#[trigger] s[j]).0 == k,
    decreases s.len(),
{
    if s.len() > 0 {
        let t = s.drop_last();
        assert forall|i: int, j: int| 0 <= i < t.len() && 0 <= j < t.len() && i != j implies (#[trigger] t[i]).0
            != (#[trigger] t[j]).0 by {
            assert(t[i] == s[i] && t[j] == s[j]);
        }
        lemma_distinct_pairs_map(t);
        assert forall|j: int| 0 <= j < s.len() implies pairs_map(s).dom().contains(#[trigger] s[j].0) && pairs_map(s)[s[j].0] == s[j].1 by {
            if j < s.len() - 1 {
                assert(t[j] == s[j]);
                assert(s[j].0 != s[s.len() - 1].0);
            }
        }
        assert forall|k: K| pairs_map(s).dom().contains(k) implies exists|j: int| 0 <= j < s.len() && (#[trigger] s[j]).0 == k by {
            if k != s.last().0 {
                assert(pairs_map(t).dom().contains(k));
                let j = choose|j: int| 0 <= j < t.len() && (#[trigger] t[j]).0 == k;
                assert(s[j] == t[j]);
                assert(0 <= j < s.len() && s[j].0 == k);
            } else {
                let j = s.len() - 1;
                assert(0 <= j < s.len() && s[j].0 == k);
            }
        }
    }
}

} // verus!
