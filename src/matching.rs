use vstd::prelude::*;

verus! {

/// The indices `j` of `s` with `p(s[j])`, in increasing order.
pub open spec fn indices_matching<T>(s: Seq<T>, p: spec_fn(T) -> bool) -> Seq<usize>
    decreases s.len(),
{
    if s.len() == 0 {
        Seq::empty()
    } else {
        let rest = indices_matching(s.drop_last(), p);
        if p(s.last()) {
            rest.push((s.len() - 1) as usize)
        } else {
            rest
        }
    }
}

/// Growing the sequence by one element appends that element's index when it matches.
pub proof fn lemma_matching_take<T>(s: Seq<T>, p: spec_fn(T) -> bool, i: int)
    requires
        0 <= i < s.len(),
    ensures
        indices_matching(s.take(i + 1), p) == if p(s[i]) {
            indices_matching(s.take(i), p).push(i as usize)
        } else {
            indices_matching(s.take(i), p)
        },
{
    assert(s.take(i + 1).drop_last() =~= s.take(i));
}

/// What the matching indices are: exactly the in-range indices whose element matches,
/// strictly increasing.
pub proof fn lemma_matching_contents<T>(s: Seq<T>, p: spec_fn(T) -> bool)
    requires
        s.len() <= usize::MAX + 1,
    ensures
        indices_matching(s, p).len() <= s.len(),
        forall|k: int|
            0 <= k < indices_matching(s, p).len() ==> {
                let j = #[trigger] indices_matching(s, p)[k];
                &&& j < s.len()
                &&& p(s[j as int])
            },
        forall|k1: int, k2: int|
            0 <= k1 < k2 < indices_matching(s, p).len() ==> indices_matching(s, p)[k1]
                < indices_matching(s, p)[k2],
        forall|j: int|
            0 <= j < s.len() && p(s[j]) ==> indices_matching(s, p).contains(j as usize),
    decreases s.len(),
{
    if s.len() > 0 {
        let t = s.drop_last();
        lemma_matching_contents(t, p);
        let r = indices_matching(s, p);
        let rt = indices_matching(t, p);
        assert forall|k: int| 0 <= k < r.len() implies {
            let j = #[trigger] r[k];
            &&& j < s.len()
            &&& p(s[j as int])
        } by {
            if k < rt.len() {
                assert(r[k] == rt[k]);
                assert(t[rt[k] as int] == s[rt[k] as int]);
            }
        }
        assert forall|j: int| 0 <= j < s.len() && p(s[j]) implies r.contains(j as usize) by {
            if j < t.len() {
                assert(t[j] == s[j]);
                let k = choose|k: int| 0 <= k < rt.len() && rt[k] == j as usize;
                assert(r[k] == j as usize);
            } else {
                assert(r[rt.len() as int] == j as usize);
            }
        }
    }
}

/// Two sequences of equal length whose elements match at the same places have the same
/// matching indices.
pub proof fn lemma_matching_congruent<T, U>(
    s1: Seq<T>,
    p1: spec_fn(T) -> bool,
    s2: Seq<U>,
    p2: spec_fn(U) -> bool,
)
    requires
        s1.len() == s2.len(),
        forall|j: int| 0 <= j < s1.len() ==> (p1(s1[j]) <==> p2(s2[j])),
    ensures
        indices_matching(s1, p1) == indices_matching(s2, p2),
    decreases s1.len(),
{
    if s1.len() > 0 {
        let t1 = s1.drop_last();
        let t2 = s2.drop_last();
        assert forall|j: int| 0 <= j < t1.len() implies (p1(t1[j]) <==> p2(t2[j])) by {
            assert(t1[j] == s1[j]);
            assert(t2[j] == s2[j]);
        }
        lemma_matching_congruent(t1, p1, t2, p2);
    }
}

} // verus!
