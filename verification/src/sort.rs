//! Ordering entries by a numeric key, as the policy read-back needs for its
//! `ds:order` positions.

use vstd::prelude::*;
use vstd::multiset::Multiset;

verus! {

broadcast use vstd::seq_lib::group_to_multiset_ensures;

/// The keys never decrease along the sequence.
pub open spec fn sorted_by_key<T>(s: Seq<(u64, T)>) -> bool {
    forall|i: int, j: int| 0 <= i <= j < s.len() ==> #[trigger] s[i].0 <= #[trigger] s[j].0
}

/// Returns the entries ordered by key: a rearrangement of the input whose
/// keys never decrease.
pub fn sort_by_key<T>(v: Vec<(u64, T)>) -> (r: Vec<(u64, T)>)
    ensures
        sorted_by_key(r@),
        r@.to_multiset() == v@.to_multiset(),
{
    let mut rest = v;
    let mut out: Vec<(u64, T)> = Vec::new();
    let ghost orig = rest@;
    while rest.len() > 0
        invariant
            sorted_by_key(out@),
            out@.to_multiset().add(rest@.to_multiset()) == orig.to_multiset(),
        decreases rest.len(),
    {
        let ghost before = rest@;
        let x = rest.pop().unwrap();
        assert(before == rest@.push(x));
        let mut pos: usize = 0;
        while pos < out.len() && out[pos].0 <= x.0
            invariant
                pos <= out.len(),
                sorted_by_key(out@),
                forall|k: int| 0 <= k < pos ==> #[trigger] out@[k].0 <= x.0,
            decreases out.len() - pos,
        {
            pos = pos + 1;
        }
        let ghost prev = out@;
        out.insert(pos, x);
        proof {
            assert(out@ == prev.insert(pos as int, x));
            vstd::seq_lib::to_multiset_insert(prev, pos as int, x);
            assert forall|i: int, j: int| 0 <= i <= j < out@.len() implies #[trigger] out@[i].0 <= #[trigger] out@[j].0 by {
                if i < pos && j < pos {
                    assert(out@[i] == prev[i] && out@[j] == prev[j]);
                } else if i < pos && j == pos {
                    assert(out@[i] == prev[i]);
                } else if i < pos {
                    assert(out@[i] == prev[i] && out@[j] == prev[j - 1]);
                } else if i == pos && j == pos {
                } else if i == pos {
                    assert(out@[j] == prev[j - 1]);
                    assert(!(pos < prev.len() && prev[pos as int].0 <= x.0) || pos == prev.len());
                    assert(prev[pos as int].0 <= prev[j - 1].0);
                } else {
                    assert(out@[i] == prev[i - 1] && out@[j] == prev[j - 1]);
                }
            }
            assert(out@.to_multiset() =~= prev.to_multiset().insert(x));
            assert(before.to_multiset() =~= rest@.to_multiset().insert(x));
            assert(out@.to_multiset().add(rest@.to_multiset()) =~= prev.to_multiset().add(before.to_multiset()));
        }
    }
    assert(rest@.to_multiset() =~= Multiset::empty());
    assert(out@.to_multiset() =~= orig.to_multiset());
    out
}

/// A rearrangement of entries whose projections are distinct keeps them
/// distinct, with the same set, and lists only entries of the original.
pub proof fn lemma_rearranged_projection<T, N>(orig: Seq<(u64, T)>, s: Seq<(u64, T)>, f: spec_fn((u64, T)) -> N)
    requires
        s.to_multiset() == orig.to_multiset(),
        orig.map_values(f).no_duplicates(),
    ensures
        s.len() == orig.len(),
        s.map_values(f).no_duplicates(),
        s.map_values(f).to_set() == orig.map_values(f).to_set(),
        forall|i: int| 0 <= i < s.len() ==> orig.contains(#[trigger] s[i]),
{
    vstd::seq_lib::to_multiset_len(s);
    vstd::seq_lib::to_multiset_len(orig);
    assert forall|i: int| 0 <= i < s.len() implies orig.contains(#[trigger] s[i]) by {
        assert(s.contains(s[i]));
        vstd::seq_lib::to_multiset_contains(s, s[i]);
        vstd::seq_lib::to_multiset_contains(orig, s[i]);
    }
    assert(orig.no_duplicates()) by {
        assert forall|i: int, j: int| 0 <= i < orig.len() && 0 <= j < orig.len() && i != j implies orig[i] != orig[j] by {
            assert(orig.map_values(f)[i] != orig.map_values(f)[j]);
        }
    }
    orig.lemma_multiset_has_no_duplicates();
    assert(s.no_duplicates()) by {
        s.lemma_multiset_has_no_duplicates_conv();
    }
    let fs = s.map_values(f);
    let fo = orig.map_values(f);
    assert forall|i: int, j: int| 0 <= i < fs.len() && 0 <= j < fs.len() && i != j implies fs[i] != fs[j] by {
        let ki = choose|k: int| 0 <= k < orig.len() && orig[k] == s[i];
        let kj = choose|k: int| 0 <= k < orig.len() && orig[k] == s[j];
        assert(orig.contains(s[i]) && orig.contains(s[j]));
        assert(ki != kj);
        assert(fo[ki] != fo[kj]);
    }
    assert forall|n: N| fs.to_set().contains(n) implies fo.to_set().contains(n) by {
        let i = choose|i: int| 0 <= i < fs.len() && fs[i] == n;
        assert(orig.contains(s[i]));
        let k = choose|k: int| 0 <= k < orig.len() && orig[k] == s[i];
        assert(fo[k] == n);
    }
    assert forall|n: N| fo.to_set().contains(n) implies fs.to_set().contains(n) by {
        let k = choose|k: int| 0 <= k < fo.len() && fo[k] == n;
        assert(orig.contains(orig[k]));
        vstd::seq_lib::to_multiset_contains(s, orig[k]);
        vstd::seq_lib::to_multiset_contains(orig, orig[k]);
        assert(s.contains(orig[k]));
        let i = choose|i: int| 0 <= i < s.len() && s[i] == orig[k];
        assert(fs[i] == n);
    }
    assert(fs.to_set() =~= fo.to_set());
}

} // verus!
