use vstd::prelude::*;

verus! {

broadcast use vstd::std_specs::vec::group_vec_axioms;

/// Inserts `x` into a sequence ordered by key, after every element whose
/// key is not above its own.
pub open spec fn insert_by_key(s: Seq<(usize, usize)>, x: (usize, usize)) -> Seq<(usize, usize)>
    decreases s.len(),
{
    if s.len() == 0 {
        seq![x]
    } else if s.last().0 <= x.0 {
        s.push(x)
    } else {
        insert_by_key(s.drop_last(), x).push(s.last())
    }
}

/// The stable sort of a sequence of (key, value) pairs by key: elements
/// with equal keys keep their relative order.
pub open spec fn sort_by_key_spec(s: Seq<(usize, usize)>) -> Seq<(usize, usize)>
    decreases s.len(),
{
    if s.len() == 0 {
        Seq::empty()
    } else {
        insert_by_key(sort_by_key_spec(s.drop_last()), s.last())
    }
}

/// Whether a sequence of pairs is ordered by key.
pub open spec fn sorted_by_key(s: Seq<(usize, usize)>) -> bool {
    forall|i: int, j: int| 0 <= i < j < s.len() ==> s[i].0 <= s[j].0
}

proof fn lemma_insert_at(s: Seq<(usize, usize)>, x: (usize, usize), j: int)
    requires
        0 <= j <= s.len(),
        forall|k: int| j <= k < s.len() ==> #[trigger] s[k].0 > x.0,
        j > 0 ==> s[j - 1].0 <= x.0,
    ensures
        insert_by_key(s, x) == s.insert(j, x),
    decreases s.len(),
{
    if s.len() == 0 {
        assert(s.insert(j, x) =~= seq![x]);
    } else if s.last().0 <= x.0 {
        assert(j == s.len());
        assert(s.insert(j, x) =~= s.push(x));
    } else {
        let t = s.drop_last();
        lemma_insert_at(t, x, j);
        assert(s.insert(j, x) =~= t.insert(j, x).push(s.last()));
    }
}

/// Insertion into a key-ordered sequence keeps it ordered.
pub proof fn lemma_insert_sorted(s: Seq<(usize, usize)>, x: (usize, usize))
    requires
        sorted_by_key(s),
    ensures
        sorted_by_key(insert_by_key(s, x)),
        insert_by_key(s, x).len() == s.len() + 1,
    decreases s.len(),
{
    if s.len() > 0 && s.last().0 > x.0 {
        let t = s.drop_last();
        lemma_insert_sorted(t, x);
        lemma_insert_members(t, x);
    }
}

proof fn lemma_insert_members(s: Seq<(usize, usize)>, x: (usize, usize))
    ensures
        forall|i: int| 0 <= i < insert_by_key(s, x).len() ==> (#[trigger] insert_by_key(s, x)[i] == x || s.contains(insert_by_key(s, x)[i])),
    decreases s.len(),
{
    if s.len() > 0 && s.last().0 > x.0 {
        let t = s.drop_last();
        lemma_insert_members(t, x);
        assert forall|i: int| 0 <= i < insert_by_key(s, x).len() implies (#[trigger] insert_by_key(s, x)[i] == x || s.contains(insert_by_key(s, x)[i])) by {
            if i < insert_by_key(t, x).len() {
                if insert_by_key(t, x)[i] != x {
                    let k = choose|k: int| 0 <= k < t.len() && t[k] == insert_by_key(t, x)[i];
                    assert(s[k] == t[k]);
                }
            } else {
                assert(s[s.len() - 1] == s.last());
            }
        }
    }
}

proof fn lemma_insert_elements(s: Seq<(usize, usize)>, x: (usize, usize))
    ensures
        forall|y: (usize, usize)| #[trigger] insert_by_key(s, x).contains(y) <==> s.contains(y) || y == x,
    decreases s.len(),
{
    let r = insert_by_key(s, x);
    if s.len() == 0 {
        assert forall|y: (usize, usize)| #[trigger] r.contains(y) <==> s.contains(y) || y == x by {
            if r.contains(y) {
                let k = choose|k: int| 0 <= k < r.len() && r[k] == y;
            }
            if y == x {
                assert(r[0] == x);
            }
        }
    } else if s.last().0 <= x.0 {
        assert forall|y: (usize, usize)| #[trigger] r.contains(y) <==> s.contains(y) || y == x by {
            if r.contains(y) {
                let k = choose|k: int| 0 <= k < r.len() && r[k] == y;
                if k < s.len() {
                    assert(s[k] == y);
                }
            }
            if s.contains(y) {
                let k = choose|k: int| 0 <= k < s.len() && s[k] == y;
                assert(r[k] == y);
            }
            if y == x {
                assert(r[s.len() as int] == x);
            }
        }
    } else {
        let t = s.drop_last();
        lemma_insert_elements(t, x);
        let u = insert_by_key(t, x);
        assert forall|y: (usize, usize)| #[trigger] r.contains(y) <==> s.contains(y) || y == x by {
            if r.contains(y) {
                let k = choose|k: int| 0 <= k < r.len() && r[k] == y;
                if k < u.len() {
                    assert(u[k] == y);
                    assert(u.contains(y));
                    if t.contains(y) {
                        let q = choose|q: int| 0 <= q < t.len() && t[q] == y;
                        assert(s[q] == y);
                    }
                } else {
                    assert(y == s.last());
                    assert(s[s.len() - 1] == y);
                }
            }
            if s.contains(y) {
                let k = choose|k: int| 0 <= k < s.len() && s[k] == y;
                if k < t.len() {
                    assert(t[k] == y);
                    assert(u.contains(y));
                    let q = choose|q: int| 0 <= q < u.len() && u[q] == y;
                    assert(r[q] == y);
                } else {
                    assert(r[u.len() as int] == y);
                }
            }
            if y == x {
                assert(u.contains(x));
                let q = choose|q: int| 0 <= q < u.len() && u[q] == x;
                assert(r[q] == x);
            }
        }
    }
}

/// Sorting keeps exactly the elements it is given: an element is in the
/// sorted sequence if and only if it is in the input.
pub proof fn law_sort_keeps_the_elements(s: Seq<(usize, usize)>)
    ensures
        forall|y: (usize, usize)| #[trigger] sort_by_key_spec(s).contains(y) <==> s.contains(y),
    decreases s.len(),
{
    if s.len() > 0 {
        let t = s.drop_last();
        law_sort_keeps_the_elements(t);
        lemma_insert_elements(sort_by_key_spec(t), s.last());
        assert forall|y: (usize, usize)| #[trigger] sort_by_key_spec(s).contains(y) <==> s.contains(y) by {
            if t.contains(y) {
                let q = choose|q: int| 0 <= q < t.len() && t[q] == y;
                assert(s[q] == y);
            }
            if s.contains(y) {
                let k = choose|k: int| 0 <= k < s.len() && s[k] == y;
                if k < t.len() {
                    assert(t[k] == y);
                }
            }
        }
    } else {
        assert(sort_by_key_spec(s) =~= s);
    }
}

/// The stable sort by key is ordered by key, and as long as its input.
pub proof fn law_sort_is_sorted(s: Seq<(usize, usize)>)
    ensures
        sorted_by_key(sort_by_key_spec(s)),
        sort_by_key_spec(s).len() == s.len(),
    decreases s.len(),
{
    if s.len() > 0 {
        law_sort_is_sorted(s.drop_last());
        lemma_insert_sorted(sort_by_key_spec(s.drop_last()), s.last());
    }
}

/// Stable sort of (key, value) pairs by key.
pub fn sort_by_key(v: &Vec<(usize, usize)>) -> (r: Vec<(usize, usize)>)
    ensures
        r@ == sort_by_key_spec(v@),
{
    let mut out: Vec<(usize, usize)> = Vec::new();
    let mut i: usize = 0;
    while i < v.len()
        invariant
            i <= v.len(),
            out@ == sort_by_key_spec(v@.take(i as int)),
        decreases v.len() - i,
    {
        let x = v[i];
        let mut j: usize = out.len();
        while j > 0 && out[j - 1].0 > x.0
            invariant
                j <= out.len(),
                forall|k: int| j <= k < out.len() ==> #[trigger] out@[k].0 > x.0,
            decreases j,
        {
            j = j - 1;
        }
        proof {
            lemma_insert_at(out@, x, j as int);
            assert(v@.take(i + 1).drop_last() =~= v@.take(i as int));
            assert(v@.take(i + 1).last() == x);
        }
        out.insert(j, x);
        i = i + 1;
    }
    assert(v@.take(v.len() as int) =~= v@);
    out
}

} // verus!
