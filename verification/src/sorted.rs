//! Sorting names in lexicographic order.
use vstd::prelude::*;

use crate::text::{lemma_seq_lt_asym, lemma_seq_lt_irrefl, lemma_seq_lt_total, lemma_seq_lt_trans, seq_lt, str_eq, str_lt};

verus! {

/// Every name sorts strictly before the names after it (so none repeats).
pub open spec fn strictly_sorted(s: Seq<Seq<char>>) -> bool {
    forall|i: int, j: int| 0 <= i < j < s.len() ==> seq_lt(#[trigger] s[i], #[trigger] s[j])
}

/// The distinct names of `v` in lexicographic order.
pub fn sort_unique(v: &Vec<String>) -> (r: Vec<String>)
    ensures
        strictly_sorted(r.deep_view()),
        forall|x: Seq<char>| r.deep_view().contains(x) <==> v.deep_view().contains(x),
{
    let mut out: Vec<String> = Vec::new();
    let mut i: usize = 0;
    while i < v.len()
        invariant
            i <= v.len(),
            strictly_sorted(out.deep_view()),
            forall|x: Seq<char>|
                out.deep_view().contains(x) <==> v.deep_view().subrange(0, i as int).contains(x),
        decreases v.len() - i,
    {
        let x = &v[i];
        let mut p: usize = 0;
        while p < out.len() && str_lt(out[p].as_str(), x.as_str())
            invariant
                p <= out.len(),
                forall|k: int| 0 <= k < p ==> seq_lt(#[trigger] out.deep_view()[k], x@),
            decreases out.len() - p,
        {
            p = p + 1;
        }
        let ghost o = out.deep_view();
        let ghost pre = v.deep_view().subrange(0, i as int);
        let ghost pre1 = v.deep_view().subrange(0, i + 1);
        assert(pre1 =~= pre.push(x@));
        if p < out.len() && str_eq(out[p].as_str(), x.as_str()) {
            assert forall|y: Seq<char>| out.deep_view().contains(y) <==> pre1.contains(y) by {
                if y == x@ {
                    assert(o[p as int] == y);
                    assert(pre1[i as int] == y);
                } else if pre1.contains(y) {
                    let k = choose|k: int| 0 <= k < pre1.len() && pre1[k] == y;
                    assert(pre[k] == y);
                }
            }
        } else {
            proof {
                if p < o.len() {
                    lemma_seq_lt_total(o[p as int], x@);
                }
            }
            out.insert(p, x.clone());
            let ghost n = out.deep_view();
            assert(n =~= o.insert(p as int, x@));
            assert forall|a: int, b: int| 0 <= a < b < n.len() implies seq_lt(#[trigger] n[a], #[trigger] n[b]) by {
                if b < p {
                    assert(n[a] == o[a] && n[b] == o[b]);
                } else if b == p {
                    assert(n[a] == o[a]);
                } else if a == p {
                    assert(n[b] == o[b - 1]);
                    if b - 1 > p {
                        assert(seq_lt(o[p as int], o[b - 1]));
                        lemma_seq_lt_trans(x@, o[p as int], o[b - 1]);
                    }
                } else if a < p {
                    assert(n[a] == o[a] && n[b] == o[b - 1]);
                } else {
                    assert(n[a] == o[a - 1] && n[b] == o[b - 1]);
                }
            }
            assert forall|y: Seq<char>| n.contains(y) <==> pre1.contains(y) by {
                if y == x@ {
                    assert(n[p as int] == y);
                    assert(pre1[i as int] == y);
                } else {
                    if n.contains(y) {
                        let k = choose|k: int| 0 <= k < n.len() && n[k] == y;
                        if k < p {
                            assert(o[k] == y);
                        } else {
                            assert(o[k - 1] == y);
                        }
                        assert(o.contains(y));
                    }
                    if pre1.contains(y) {
                        let k = choose|k: int| 0 <= k < pre1.len() && pre1[k] == y;
                        assert(pre[k] == y);
                        assert(o.contains(y));
                        let m = choose|m: int| 0 <= m < o.len() && o[m] == y;
                        if m < p {
                            assert(n[m] == y);
                        } else {
                            assert(n[m + 1] == y);
                        }
                    }
                }
            }
        }
        i = i + 1;
    }
    assert(v.deep_view().subrange(0, v.len() as int) =~= v.deep_view());
    out
}

/// Two strictly sorted lists with the same names are the same list.
pub proof fn lemma_sorted_unique(s: Seq<Seq<char>>, t: Seq<Seq<char>>)
    requires
        strictly_sorted(s),
        strictly_sorted(t),
        forall|x: Seq<char>| s.contains(x) <==> t.contains(x),
    ensures
        s == t,
    decreases s.len(),
{
    if s.len() == 0 {
        if t.len() > 0 {
            assert(t.contains(t[0]));
        }
        assert(s =~= t);
    } else {
        assert(s.contains(s[0]));
        let j = choose|j: int| 0 <= j < t.len() && t[j] == s[0];
        assert(t.contains(t[0]));
        let i = choose|i: int| 0 <= i < s.len() && s[i] == t[0];
        if j > 0 {
            assert(seq_lt(t[0], t[j]));
            if i > 0 {
                assert(seq_lt(s[0], s[i]));
                lemma_seq_lt_asym(s[0], t[0]);
            } else {
                lemma_seq_lt_irrefl(s[0]);
            }
        }
        assert(t[0] == s[0]);
        let s1 = s.drop_first();
        let t1 = t.drop_first();
        assert forall|x: Seq<char>| s1.contains(x) <==> t1.contains(x) by {
            if s1.contains(x) {
                let a = choose|a: int| 0 <= a < s1.len() && s1[a] == x;
                assert(s[a + 1] == x);
                assert(seq_lt(s[0], s[a + 1]));
                lemma_seq_lt_irrefl(x);
                assert(t.contains(x));
                let b = choose|b: int| 0 <= b < t.len() && t[b] == x;
                assert(b != 0);
                assert(t1[b - 1] == x);
            }
            if t1.contains(x) {
                let a = choose|a: int| 0 <= a < t1.len() && t1[a] == x;
                assert(t[a + 1] == x);
                assert(seq_lt(t[0], t[a + 1]));
                lemma_seq_lt_irrefl(x);
                assert(s.contains(x));
                let b = choose|b: int| 0 <= b < s.len() && s[b] == x;
                assert(b != 0);
                assert(s1[b - 1] == x);
            }
        }
        assert forall|a: int, b: int| 0 <= a < b < s1.len() implies seq_lt(#[trigger] s1[a], #[trigger] s1[b]) by {
            assert(s1[a] == s[a + 1] && s1[b] == s[b + 1]);
        }
        assert forall|a: int, b: int| 0 <= a < b < t1.len() implies seq_lt(#[trigger] t1[a], #[trigger] t1[b]) by {
            assert(t1[a] == t[a + 1] && t1[b] == t[b + 1]);
        }
        lemma_sorted_unique(s1, t1);
        assert(s =~= seq![s[0]] + s1);
        assert(t =~= seq![t[0]] + t1);
    }
}

/// In a strictly sorted list, the first index of an element is where it is.
pub proof fn lemma_strictly_sorted_index_of(s: Seq<Seq<char>>, i: int)
    requires
        strictly_sorted(s),
        0 <= i < s.len(),
    ensures
        s.index_of(s[i]) == i,
{
    assert(s.contains(s[i]));
    let j = s.index_of(s[i]);
    assert(0 <= j < s.len() && s[j] == s[i]);
    if j != i {
        if j < i {
            assert(seq_lt(s[j], s[i]));
        } else {
            assert(seq_lt(s[i], s[j]));
        }
        lemma_seq_lt_irrefl(s[i]);
    }
}

} // verus!
